# engine

A matching engine whose order books, command dispatch, sharding and HTTP
request logic are verified with Verus.

- `src/orderbook/` — price-time priority order books. `book_model.rs` holds
  the mathematical model (`BookState`: both queues in priority order, the
  event sequence number, the events not yet handed out) and what each
  operation does to it; `orderbook.rs` is the executable book, proved to
  follow that model.
- `src/engine.rs`, `src/shard.rs`, `src/shard_map.rs` — one book per
  instrument, the single-writer shard around it, and instrument-to-shard
  routing.
- `src/gateway/` — what each HTTP endpoint decides: request validation, the
  command a request becomes, and the status and body of each response.
- `src/laws.rs` — properties that span operations (event numbering,
  price-time priority, fill-or-kill, cancel after place, top-of-book
  reporting, ...), proved over the model.
- `app/` — the server: actix handlers, shard threads, the event bus and
  configuration loading, all calling into the library.
- `tests/` — executable tests of the library.
