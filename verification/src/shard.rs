//! Single-writer partition of the matching engine.
//!
//! A [`Shard`] owns a disjoint subset of instruments and is driven by one
//! writer through [`Shard::process`]: consume a [`ShardRequest`], produce a
//! [`ShardReply`]. An execute reply carries the post-command top of book,
//! read with no other request in between.

use crate::commands::{Command, CommandOutput, EngineError, InstrumentId};
use crate::engine::{command_room, engine_valid, run_command, Engine};
use crate::events::Events;
use crate::orderbook::book_model::{levels_of, BookState};
use crate::orderbook::level_info::OrderbookLevelInfo;
use crate::orderbook::orderbook::lists_levels;
use crate::orderbook::types::Price;
use vstd::prelude::*;

verus! {

/// Identifier for a shard.
pub type ShardId = u16;

/// Messages accepted by [`Shard::process`].
#[derive(Debug, Clone)]
pub enum ShardRequest {
    /// Run a command on an instrument owned by this shard.
    Execute(Command),
    /// Create a book for a new instrument on this shard. Idempotent.
    RegisterInstrument(InstrumentId),
    /// Depth snapshot of an instrument owned by this shard.
    OrderbookSnapshot(InstrumentId),
    /// Best bid and best ask of an instrument owned by this shard.
    TopOfBook(InstrumentId),
}

/// Reply bundle for a successful execute request.
#[derive(Debug)]
pub struct ExecuteReply {
    pub output: CommandOutput,
    pub events: Events,
    pub best_bid: Option<Price>,
    pub best_ask: Option<Price>,
}

/// Reply for any [`ShardRequest`]; variants line up with requests.
#[derive(Debug)]
pub enum ShardReply {
    Execute(Result<ExecuteReply, EngineError>),
    /// `created` is `true` when the call created a new book.
    RegisterInstrument { created: bool },
    /// `None` when the instrument is not registered on this shard.
    OrderbookSnapshot(Option<OrderbookLevelInfo>),
    /// `None` when not registered; inner `None`s for empty sides.
    TopOfBook(Option<(Option<Price>, Option<Price>)>),
}

/// Infrastructure failure of a shard running on its own thread.
#[derive(Debug, Clone, Copy, PartialEq, Eq, Structural)]
pub enum ShardError {
    /// The shard has stopped and no longer accepts requests.
    ShardDown(ShardId),
}

/// What `request` needs of the books it reads or changes: sequence numbers
/// for every event of an executed command, and a depth that fits
/// `Quantity` for a snapshot.
pub open spec fn request_ready(books: Map<InstrumentId, BookState>, request: ShardRequest) -> bool {
    match request {
        ShardRequest::Execute(cmd) => books.contains_key(cmd.instrument_spec()) ==> command_room(
            books[cmd.instrument_spec()],
            cmd,
        ),
        ShardRequest::OrderbookSnapshot(id) => books.contains_key(id) ==> books[id].depth_fits(),
        _ => true,
    }
}

/// The best bid and ask of `id`'s book, or `None` when it is not registered.
pub open spec fn top_of(books: Map<InstrumentId, BookState>, id: InstrumentId) -> Option<
    (Option<Price>, Option<Price>),
> {
    if books.contains_key(id) {
        Some((books[id].best_bid(), books[id].best_ask()))
    } else {
        None
    }
}

/// A matching-engine shard: an engine owned by a single writer.
pub struct Shard {
    shard_id: ShardId,
    engine: Engine,
}

impl View for Shard {
    type V = Map<InstrumentId, BookState>;

    closed spec fn view(&self) -> Map<InstrumentId, BookState> {
        self.engine@
    }
}

impl Shard {
    pub closed spec fn id_spec(&self) -> ShardId {
        self.shard_id
    }

    /// An empty shard with no books.
    pub fn new(shard_id: ShardId) -> (s: Self)
        ensures
            s.id_spec() == shard_id,
            s@ == Map::<InstrumentId, BookState>::empty(),
    {
        Self { shard_id, engine: Engine::new() }
    }

    pub fn shard_id(&self) -> (r: ShardId)
        ensures
            r == self.id_spec(),
    {
        self.shard_id
    }

    /// Number of instruments owned by this shard.
    pub fn instrument_count(&self) -> (r: usize)
        ensures
            r == self@.dom().len(),
    {
        self.engine.instrument_count()
    }

    /// Whether `request` can be processed without running out of event
    /// sequence numbers or of `Quantity` range in a snapshot.
    pub fn is_ready_for(&self, request: &ShardRequest) -> (r: bool)
        ensures
            r == request_ready(self@, *request),
    {
        match request {
            ShardRequest::Execute(cmd) => self.engine.has_room(cmd),
            ShardRequest::OrderbookSnapshot(id) => self.engine.depth_fits(*id),
            _ => true,
        }
    }

    /// Handle one request and return its reply.
    pub fn process(&mut self, request: ShardRequest) -> (reply: ShardReply)
        requires
            request_ready(old(self)@, request),
        ensures
            final(self).id_spec() == old(self).id_spec(),
            engine_valid(final(self)@),
            match request {
                ShardRequest::Execute(cmd) => {
                    let id = cmd.instrument_spec();
                    if old(self)@.contains_key(id) {
                        let (b2, out) = run_command(old(self)@[id], cmd);
                        &&& reply matches ShardReply::Execute(Ok(er))
                        &&& er.output@ == out
                        &&& er.events@ == b2.pending
                        &&& er.best_bid == b2.best_bid()
                        &&& er.best_ask == b2.best_ask()
                        &&& final(self)@ == old(self)@.insert(id, b2.drained())
                    } else {
                        &&& reply matches ShardReply::Execute(Err(e))
                        &&& e == EngineError::UnknownInstrument(id)
                        &&& final(self)@ == old(self)@
                    }
                },
                ShardRequest::RegisterInstrument(id) => {
                    &&& reply matches ShardReply::RegisterInstrument { created }
                    &&& created == !old(self)@.contains_key(id)
                    &&& final(self)@ == old(self)@.insert(
                        id,
                        if created {
                            BookState::empty(id)
                        } else {
                            old(self)@[id]
                        },
                    )
                },
                ShardRequest::OrderbookSnapshot(id) => {
                    &&& reply matches ShardReply::OrderbookSnapshot(snap)
                    &&& (snap is None <==> !old(self)@.contains_key(id))
                    &&& (snap matches Some(info) ==> lists_levels(
                        info@.0,
                        levels_of(old(self)@[id].bids),
                    ) && lists_levels(info@.1, levels_of(old(self)@[id].asks)))
                    &&& final(self)@ == old(self)@
                },
                ShardRequest::TopOfBook(id) => {
                    &&& reply == ShardReply::TopOfBook(top_of(old(self)@, id))
                    &&& final(self)@ == old(self)@
                },
            },
    {
        let reply = match request {
            ShardRequest::Execute(cmd) => {
                let instrument_id = cmd.instrument_id();
                match self.engine.execute(cmd) {
                    Ok(result) => {
                        let best_bid = self.engine.best_bid(instrument_id);
                        let best_ask = self.engine.best_ask(instrument_id);
                        ShardReply::Execute(
                            Ok(
                                ExecuteReply {
                                    output: result.output,
                                    events: result.events,
                                    best_bid,
                                    best_ask,
                                },
                            ),
                        )
                    },
                    Err(e) => ShardReply::Execute(Err(e)),
                }
            },
            ShardRequest::RegisterInstrument(instrument_id) => {
                let created = self.engine.register_instrument(instrument_id);
                proof {
                    if !created {
                        assert(old(self)@.insert(instrument_id, old(self)@[instrument_id])
                            =~= old(self)@);
                    }
                }
                ShardReply::RegisterInstrument { created }
            },
            ShardRequest::OrderbookSnapshot(instrument_id) => {
                ShardReply::OrderbookSnapshot(self.engine.get_orderbook_state(instrument_id))
            },
            ShardRequest::TopOfBook(instrument_id) => {
                if !self.engine.is_registered(instrument_id) {
                    ShardReply::TopOfBook(None)
                } else {
                    ShardReply::TopOfBook(
                        Some(
                            (self.engine.best_bid(instrument_id), self.engine.best_ask(instrument_id)),
                        ),
                    )
                }
            },
        };
        proof {
            use_type_invariant(&self.engine);
            self.engine.lemma_valid();
        }
        reply
    }
}

} // verus!
