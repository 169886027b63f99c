use engine::commands::{Command, CommandOutput, EngineError, InstrumentId};
use engine::orderbook::order::Order;
use engine::orderbook::order_type::OrderType;
use engine::orderbook::side::Side;
use engine::orderbook::types::{OrderId, Price, Quantity};
use engine::shard::{Shard, ShardReply, ShardRequest};

fn limit_order(order_id: OrderId, side: Side, price: Price, quantity: Quantity) -> Order {
    Order::new(order_id, side, OrderType::GoodTillCancel, price, quantity)
}

fn place_cmd(instrument_id: InstrumentId, order_id: OrderId, side: Side) -> Command {
    Command::PlaceOrder {
        instrument_id,
        account_id: 1,
        request_id: order_id,
        order: limit_order(order_id, side, 100, 10),
    }
}

#[test]
fn new_shard_has_no_instruments() {
    let shard = Shard::new(0);
    assert_eq!(shard.shard_id(), 0);
    assert_eq!(shard.instrument_count(), 0);
}

#[test]
fn shard_register_instrument_is_idempotent() {
    let mut shard = Shard::new(1);

    match shard.process(ShardRequest::RegisterInstrument(42)) {
        ShardReply::RegisterInstrument { created } => assert!(created),
        other => panic!("unexpected reply: {other:?}"),
    }
    match shard.process(ShardRequest::RegisterInstrument(42)) {
        ShardReply::RegisterInstrument { created } => assert!(!created),
        other => panic!("unexpected reply: {other:?}"),
    }
    assert_eq!(shard.instrument_count(), 1);
}

#[test]
fn execute_on_unknown_instrument_returns_engine_error() {
    let mut shard = Shard::new(0);
    let reply = shard.process(ShardRequest::Execute(place_cmd(99, 1, Side::Buy)));
    match reply {
        ShardReply::Execute(Err(EngineError::UnknownInstrument(99))) => {}
        other => panic!("unexpected reply: {other:?}"),
    }
}

#[test]
fn execute_returns_bundled_top_of_book() {
    let mut shard = Shard::new(0);
    shard.process(ShardRequest::RegisterInstrument(1));

    let reply = shard.process(ShardRequest::Execute(place_cmd(1, 1, Side::Buy)));
    match reply {
        ShardReply::Execute(Ok(r)) => {
            assert!(matches!(r.output, CommandOutput::PlaceOrder(Ok(_))));
            assert_eq!(r.best_bid, Some(100));
            assert_eq!(r.best_ask, None);
            assert!(!r.events.is_empty(), "expected events to be emitted");
        }
        other => panic!("unexpected reply: {other:?}"),
    }
}

#[test]
fn top_of_book_distinguishes_unregistered_from_empty() {
    let mut shard = Shard::new(0);
    match shard.process(ShardRequest::TopOfBook(1)) {
        ShardReply::TopOfBook(None) => {}
        other => panic!("unexpected reply: {other:?}"),
    }

    shard.process(ShardRequest::RegisterInstrument(1));
    match shard.process(ShardRequest::TopOfBook(1)) {
        ShardReply::TopOfBook(Some((None, None))) => {}
        other => panic!("unexpected reply: {other:?}"),
    }

    shard.process(ShardRequest::Execute(place_cmd(1, 1, Side::Buy)));
    match shard.process(ShardRequest::TopOfBook(1)) {
        ShardReply::TopOfBook(Some((Some(100), None))) => {}
        other => panic!("unexpected reply: {other:?}"),
    }
}

#[test]
fn orderbook_snapshot_returns_none_for_unregistered() {
    let mut shard = Shard::new(0);
    match shard.process(ShardRequest::OrderbookSnapshot(7)) {
        ShardReply::OrderbookSnapshot(None) => {}
        other => panic!("unexpected reply: {other:?}"),
    }
}

#[test]
fn shard_isolates_separate_instruments() {
    let mut shard = Shard::new(0);
    shard.process(ShardRequest::RegisterInstrument(1));
    shard.process(ShardRequest::RegisterInstrument(2));

    shard.process(ShardRequest::Execute(place_cmd(1, 10, Side::Buy)));
    shard.process(ShardRequest::Execute(place_cmd(2, 20, Side::Sell)));

    match shard.process(ShardRequest::TopOfBook(1)) {
        ShardReply::TopOfBook(Some((Some(100), None))) => {}
        other => panic!("instrument 1 unexpected reply: {other:?}"),
    }
    match shard.process(ShardRequest::TopOfBook(2)) {
        ShardReply::TopOfBook(Some((None, Some(100)))) => {}
        other => panic!("instrument 2 unexpected reply: {other:?}"),
    }
}
