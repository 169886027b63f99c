//! Commands and their explicit outcomes for the matching engine.

use crate::events::Events;
use crate::orderbook::order::Order;
use crate::orderbook::order_modify::OrderModify;
use crate::orderbook::trade::{Trade, Trades};
use crate::orderbook::types::{OrderId, OrderIds};
use vstd::prelude::*;

verus! {

pub type InstrumentId = u32;

pub type AccountId = u64;

pub type RequestId = u64;

/// A single inbound action for the engine, with the metadata of the request
/// that carried it.
#[derive(Debug, Clone)]
pub enum Command {
    PlaceOrder {
        instrument_id: InstrumentId,
        account_id: AccountId,
        request_id: RequestId,
        order: Order,
    },
    CancelOrder {
        instrument_id: InstrumentId,
        account_id: AccountId,
        request_id: RequestId,
        order_id: OrderId,
    },
    CancelOrders {
        instrument_id: InstrumentId,
        account_id: AccountId,
        request_id: RequestId,
        order_ids: OrderIds,
    },
    ModifyOrder {
        instrument_id: InstrumentId,
        account_id: AccountId,
        request_id: RequestId,
        modify: OrderModify,
    },
}

impl Command {
    pub open spec fn instrument_spec(&self) -> InstrumentId {
        match self {
            Command::PlaceOrder { instrument_id, .. } => *instrument_id,
            Command::CancelOrder { instrument_id, .. } => *instrument_id,
            Command::CancelOrders { instrument_id, .. } => *instrument_id,
            Command::ModifyOrder { instrument_id, .. } => *instrument_id,
        }
    }

    /// The instrument whose book the command is routed to.
    pub fn instrument_id(&self) -> (r: InstrumentId)
        ensures
            r == self.instrument_spec(),
    {
        match self {
            Command::PlaceOrder { instrument_id, .. } => *instrument_id,
            Command::CancelOrder { instrument_id, .. } => *instrument_id,
            Command::CancelOrders { instrument_id, .. } => *instrument_id,
            Command::ModifyOrder { instrument_id, .. } => *instrument_id,
        }
    }
}

#[derive(Debug, Clone, PartialEq, Eq)]
pub struct PlaceOrderSuccess {
    pub trades: Trades,
}

#[derive(Debug, Clone, Copy, PartialEq, Eq, Structural)]
pub enum PlaceOrderReject {
    DuplicateOrderId,
    PostOnlyWouldTakeLiquidity,
    NoLiquidityForMarket,
    FillAndKillNoMatch,
    FillOrKillInsufficientLiquidity,
}

pub type PlaceOrderResult = Result<PlaceOrderSuccess, PlaceOrderReject>;

pub open spec fn place_reject_text(r: PlaceOrderReject) -> Seq<char> {
    match r {
        PlaceOrderReject::DuplicateOrderId => "duplicate order id"@,
        PlaceOrderReject::PostOnlyWouldTakeLiquidity => "post-only order would take liquidity"@,
        PlaceOrderReject::NoLiquidityForMarket => "no liquidity for market order"@,
        PlaceOrderReject::FillAndKillNoMatch => "fill-and-kill: no immediate match"@,
        PlaceOrderReject::FillOrKillInsufficientLiquidity => {
            "fill-or-kill: insufficient liquidity at limit price"@
        },
    }
}

impl PlaceOrderReject {
    /// The human-readable reason.
    pub fn message(&self) -> (r: &'static str)
        ensures
            r@ == place_reject_text(*self),
    {
        match self {
            PlaceOrderReject::DuplicateOrderId => "duplicate order id",
            PlaceOrderReject::PostOnlyWouldTakeLiquidity => "post-only order would take liquidity",
            PlaceOrderReject::NoLiquidityForMarket => "no liquidity for market order",
            PlaceOrderReject::FillAndKillNoMatch => "fill-and-kill: no immediate match",
            PlaceOrderReject::FillOrKillInsufficientLiquidity => {
                "fill-or-kill: insufficient liquidity at limit price"
            },
        }
    }
}

#[derive(Debug, Clone, Copy, PartialEq, Eq, Structural)]
pub enum CancelOrderResult {
    Cancelled,
    NotFound,
}

#[derive(Debug, Clone, Copy, PartialEq, Eq, Structural)]
pub struct CancelOrdersSummary {
    pub cancelled: usize,
    pub not_found: usize,
}

#[derive(Debug, Clone, PartialEq, Eq)]
pub struct ModifyOrderSuccess {
    pub trades: Trades,
}

#[derive(Debug, Clone, Copy, PartialEq, Eq, Structural)]
pub enum ModifyOrderReject {
    OrderNotFound,
    SideChangeNotAllowed,
    PlaceRejected(PlaceOrderReject),
}

pub type ModifyOrderResult = Result<ModifyOrderSuccess, ModifyOrderReject>;

pub open spec fn modify_reject_text(r: ModifyOrderReject) -> Seq<char> {
    match r {
        ModifyOrderReject::OrderNotFound => "order not found"@,
        ModifyOrderReject::SideChangeNotAllowed => "side change not allowed on modify"@,
        ModifyOrderReject::PlaceRejected(e) => place_reject_text(e),
    }
}

impl ModifyOrderReject {
    /// The human-readable reason; a placement reject reads as itself.
    pub fn message(&self) -> (r: &'static str)
        ensures
            r@ == modify_reject_text(*self),
    {
        match self {
            ModifyOrderReject::OrderNotFound => "order not found",
            ModifyOrderReject::SideChangeNotAllowed => "side change not allowed on modify",
            ModifyOrderReject::PlaceRejected(e) => e.message(),
        }
    }
}

/// Result of command dispatch; the variant matches the command's.
#[derive(Debug)]
pub enum CommandOutput {
    PlaceOrder(PlaceOrderResult),
    CancelOrder(CancelOrderResult),
    CancelOrders(CancelOrdersSummary),
    ModifyOrder(ModifyOrderResult),
}

/// The failure of routing a command to a book.
#[derive(Debug, Clone, Copy, PartialEq, Eq, Structural)]
pub enum EngineError {
    UnknownInstrument(InstrumentId),
}

/// What a successfully routed command produced.
#[derive(Debug)]
pub struct ExecuteResult {
    pub output: CommandOutput,
    pub events: Events,
}

/// A command outcome with its trades as a sequence.
pub enum OutcomeView {
    PlaceOrder(Result<Seq<Trade>, PlaceOrderReject>),
    CancelOrder(CancelOrderResult),
    CancelOrders(CancelOrdersSummary),
    ModifyOrder(Result<Seq<Trade>, ModifyOrderReject>),
}

pub open spec fn place_result_view(r: PlaceOrderResult) -> Result<Seq<Trade>, PlaceOrderReject> {
    match r {
        Ok(s) => Ok(s.trades@),
        Err(e) => Err(e),
    }
}

pub open spec fn modify_result_view(r: ModifyOrderResult) -> Result<Seq<Trade>, ModifyOrderReject> {
    match r {
        Ok(s) => Ok(s.trades@),
        Err(e) => Err(e),
    }
}

impl View for CommandOutput {
    type V = OutcomeView;

    open spec fn view(&self) -> OutcomeView {
        match self {
            CommandOutput::PlaceOrder(r) => OutcomeView::PlaceOrder(place_result_view(*r)),
            CommandOutput::CancelOrder(r) => OutcomeView::CancelOrder(*r),
            CommandOutput::CancelOrders(s) => OutcomeView::CancelOrders(*s),
            CommandOutput::ModifyOrder(r) => OutcomeView::ModifyOrder(modify_result_view(*r)),
        }
    }
}

} // verus!
