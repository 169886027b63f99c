//! The consumer side of the engine's event stream.
//!
//! Every command processed by a shard produces an ordered stream of
//! [`Event`]s; a consumer observes them one at a time in the order they
//! arrive. The channel and thread that deliver them live with the server.

use crate::events::Event;
use vstd::prelude::*;

verus! {

/// Plug-in point for anything that wants to observe engine events.
///
/// Called exactly once per event, in arrival order; an implementation is
/// moved onto the delivering thread, so it must be `Send`.
pub trait EventConsumer: Send {
    fn consume(&mut self, event: Event);
}

} // verus!
