//! Request and response bodies of the HTTP gateway.

use crate::orderbook::types::{OrderId, Price, Quantity};
use vstd::prelude::*;

verus! {

pub struct HealthResponse {
    pub status: &'static str,
}

pub struct ErrorResponse {
    pub error: String,
}

pub struct CreateOrderRequest {
    pub instrument_id: u32,
    pub account_id: u64,
    pub request_id: u64,
    pub order_id: OrderId,
    pub side: String,
    pub order_type: String,
    pub price: Option<Price>,
    pub quantity: Quantity,
}

pub struct ModifyOrderRequest {
    pub instrument_id: u32,
    pub account_id: u64,
    pub request_id: u64,
    pub order_id: OrderId,
    pub side: String,
    pub price: Price,
    pub quantity: Quantity,
}

pub struct CancelOrderQuery {
    pub instrument_id: u32,
    pub account_id: u64,
    pub request_id: u64,
}

pub struct InstrumentQuery {
    pub instrument_id: u32,
}

#[derive(Debug, Clone, Copy, PartialEq, Eq, Structural)]
pub struct OrderResult {
    pub trades: usize,
    pub best_bid: Option<Price>,
    pub best_ask: Option<Price>,
}

#[derive(Debug, Clone, Copy, PartialEq, Eq, Structural)]
pub struct TopOfBookResponse {
    pub best_bid: Option<Price>,
    pub best_ask: Option<Price>,
}

#[derive(Debug, Clone, Copy, PartialEq, Eq, Structural)]
pub struct Level {
    pub price: Price,
    pub quantity: Quantity,
}

pub struct OrderbookResponse {
    pub bids: Vec<Level>,
    pub asks: Vec<Level>,
}

pub struct RegisterInstrumentRequest {
    pub instrument_id: u32,
}

#[derive(Debug, Clone, Copy, PartialEq, Eq, Structural)]
pub struct RegisterInstrumentResponse {
    pub instrument_id: u32,
    /// `true` when this call created a book, `false` when it was already registered.
    pub created: bool,
}

} // verus!
