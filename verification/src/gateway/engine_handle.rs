//! How the gateway drives an engine for one request: run the command and
//! read the post-command top of book with nothing in between.

use crate::commands::{Command, CommandOutput, EngineError, InstrumentId};
use crate::engine::{command_room, engine_valid, run_command, Engine};
use crate::events::Events;
use crate::orderbook::level_info::OrderbookLevelInfo;
use crate::orderbook::types::Price;
use crate::shard::top_of;
use vstd::prelude::*;

verus! {

/// Everything the HTTP layer needs for one command.
#[derive(Debug)]
pub struct EngineReply {
    pub output: CommandOutput,
    pub events: Events,
    pub best_bid: Option<Price>,
    pub best_ask: Option<Price>,
}

/// How the server reaches the engine: each operation is atomic for the
/// instrument it names, and nothing more is promised across instruments.
pub trait EngineHandle: Send + Sync {
    /// Run a command on the instrument it names; the reply carries the
    /// output, the events and the top of book right after it.
    fn submit(&self, cmd: Command) -> Result<EngineReply, EngineError>;

    /// Create a book for `instrument_id`; `false` when it already had one.
    fn register_instrument(&self, instrument_id: InstrumentId) -> bool;

    /// Depth snapshot; `None` when the instrument is not registered.
    fn orderbook_snapshot(&self, instrument_id: InstrumentId) -> Option<OrderbookLevelInfo>;

    /// Best bid and ask; `None` when the instrument is not registered.
    fn top_of_book(&self, instrument_id: InstrumentId) -> Option<(Option<Price>, Option<Price>)>;
}

/// Run `cmd` and bundle its output and events with the top of book after it.
pub fn submit_to_engine(engine: &mut Engine, cmd: Command) -> (r: Result<EngineReply, EngineError>)
    requires
        old(engine)@.contains_key(cmd.instrument_spec()) ==> command_room(
            old(engine)@[cmd.instrument_spec()],
            cmd,
        ),
    ensures
        ({
            let id = cmd.instrument_spec();
            if old(engine)@.contains_key(id) {
                let (b2, out) = run_command(old(engine)@[id], cmd);
                &&& r matches Ok(er)
                &&& er.output@ == out
                &&& er.events@ == b2.pending
                &&& er.best_bid == b2.best_bid()
                &&& er.best_ask == b2.best_ask()
                &&& final(engine)@ == old(engine)@.insert(id, b2.drained())
            } else {
                &&& r == Err::<EngineReply, EngineError>(EngineError::UnknownInstrument(id))
                &&& final(engine)@ == old(engine)@
            }
        }),
{
    let instrument_id = cmd.instrument_id();
    let result = match engine.execute(cmd) {
        Ok(result) => result,
        Err(e) => return Err(e),
    };
    let best_bid = engine.best_bid(instrument_id);
    let best_ask = engine.best_ask(instrument_id);
    Ok(EngineReply { output: result.output, events: result.events, best_bid, best_ask })
}

/// Best bid and ask of `instrument_id`, or `None` when it is not registered.
pub fn engine_top_of_book(engine: &Engine, instrument_id: InstrumentId) -> (r: Option<
    (Option<Price>, Option<Price>),
>)
    ensures
        r == top_of(engine@, instrument_id),
{
    if !engine.is_registered(instrument_id) {
        return None;
    }
    Some((engine.best_bid(instrument_id), engine.best_ask(instrument_id)))
}

} // verus!
