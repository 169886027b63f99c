//! Engine event vocabulary.
//!
//! Every mutating operation on an order book produces a sequence of
//! [`Event`]s besides its command outcome. Events are ordered per book by
//! their `seq` field.

use crate::commands::{InstrumentId, PlaceOrderReject};
use crate::orderbook::side::Side;
use crate::orderbook::trade::Trade;
use crate::orderbook::types::{OrderId, Price, Quantity};
use vstd::prelude::*;

verus! {

/// Sequence number, scoped to a single order book.
pub type EventSeq = u64;

/// Why an inbound place or modify was rejected: every place reject plus
/// the modify-only ones.
#[derive(Debug, Clone, Copy, PartialEq, Eq, Structural)]
pub enum RejectReason {
    DuplicateOrderId,
    PostOnlyWouldTakeLiquidity,
    NoLiquidityForMarket,
    FillAndKillNoMatch,
    FillOrKillInsufficientLiquidity,
    OrderNotFound,
    SideChangeNotAllowed,
}

/// The reject reason that carries a place reject.
pub open spec fn reason_of(r: PlaceOrderReject) -> RejectReason {
    match r {
        PlaceOrderReject::DuplicateOrderId => RejectReason::DuplicateOrderId,
        PlaceOrderReject::PostOnlyWouldTakeLiquidity => RejectReason::PostOnlyWouldTakeLiquidity,
        PlaceOrderReject::NoLiquidityForMarket => RejectReason::NoLiquidityForMarket,
        PlaceOrderReject::FillAndKillNoMatch => RejectReason::FillAndKillNoMatch,
        PlaceOrderReject::FillOrKillInsufficientLiquidity => RejectReason::FillOrKillInsufficientLiquidity,
    }
}

impl From<PlaceOrderReject> for RejectReason {
    fn from(r: PlaceOrderReject) -> (out: Self) {
        match r {
            PlaceOrderReject::DuplicateOrderId => RejectReason::DuplicateOrderId,
            PlaceOrderReject::PostOnlyWouldTakeLiquidity => RejectReason::PostOnlyWouldTakeLiquidity,
            PlaceOrderReject::NoLiquidityForMarket => RejectReason::NoLiquidityForMarket,
            PlaceOrderReject::FillAndKillNoMatch => RejectReason::FillAndKillNoMatch,
            PlaceOrderReject::FillOrKillInsufficientLiquidity => {
                RejectReason::FillOrKillInsufficientLiquidity
            },
        }
    }
}

impl vstd::std_specs::convert::FromSpecImpl<PlaceOrderReject> for RejectReason {
    open spec fn obeys_from_spec() -> bool {
        true
    }

    open spec fn from_spec(r: PlaceOrderReject) -> RejectReason {
        reason_of(r)
    }
}

/// A single fact emitted by the engine after processing a command.
#[derive(Debug, Clone, Copy, PartialEq, Eq, Structural)]
pub enum Event {
    /// A new order was accepted into matching.
    OrderAccepted {
        seq: EventSeq,
        instrument_id: InstrumentId,
        order_id: OrderId,
        side: Side,
        price: Price,
        quantity: Quantity,
    },
    /// An inbound place or modify was rejected.
    OrderRejected {
        seq: EventSeq,
        instrument_id: InstrumentId,
        order_id: OrderId,
        reason: RejectReason,
    },
    /// An order left the book without trading: cancelled explicitly, as
    /// part of a modify, or as the unfilled rest of an immediate order.
    OrderCanceled {
        seq: EventSeq,
        instrument_id: InstrumentId,
        order_id: OrderId,
        remaining_quantity: Quantity,
    },
    /// A maker and a taker matched.
    TradeExecuted { seq: EventSeq, instrument_id: InstrumentId, trade: Trade },
    /// Best bid and/or best ask changed as a result of the command.
    TopOfBookUpdated {
        seq: EventSeq,
        instrument_id: InstrumentId,
        best_bid: Option<Price>,
        best_ask: Option<Price>,
    },
}

impl Event {
    pub open spec fn seq_spec(self) -> EventSeq {
        match self {
            Event::OrderAccepted { seq, .. } => seq,
            Event::OrderRejected { seq, .. } => seq,
            Event::OrderCanceled { seq, .. } => seq,
            Event::TradeExecuted { seq, .. } => seq,
            Event::TopOfBookUpdated { seq, .. } => seq,
        }
    }

    pub open spec fn instrument_spec(self) -> InstrumentId {
        match self {
            Event::OrderAccepted { instrument_id, .. } => instrument_id,
            Event::OrderRejected { instrument_id, .. } => instrument_id,
            Event::OrderCanceled { instrument_id, .. } => instrument_id,
            Event::TradeExecuted { instrument_id, .. } => instrument_id,
            Event::TopOfBookUpdated { instrument_id, .. } => instrument_id,
        }
    }

    /// Sequence number assigned by the originating order book.
    pub fn seq(&self) -> (r: EventSeq)
        ensures
            r == self.seq_spec(),
    {
        match self {
            Event::OrderAccepted { seq, .. } => *seq,
            Event::OrderRejected { seq, .. } => *seq,
            Event::OrderCanceled { seq, .. } => *seq,
            Event::TradeExecuted { seq, .. } => *seq,
            Event::TopOfBookUpdated { seq, .. } => *seq,
        }
    }

    /// Instrument this event belongs to.
    pub fn instrument_id(&self) -> (r: InstrumentId)
        ensures
            r == self.instrument_spec(),
    {
        match self {
            Event::OrderAccepted { instrument_id, .. } => *instrument_id,
            Event::OrderRejected { instrument_id, .. } => *instrument_id,
            Event::OrderCanceled { instrument_id, .. } => *instrument_id,
            Event::TradeExecuted { instrument_id, .. } => *instrument_id,
            Event::TopOfBookUpdated { instrument_id, .. } => *instrument_id,
        }
    }
}

/// The events emitted by a single command.
pub type Events = Vec<Event>;

} // verus!
