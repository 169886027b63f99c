use crate::commands::InstrumentId;
use crate::orderbook::side::Side;
use crate::orderbook::types::{OrderId, Price, Quantity};
use vstd::prelude::*;

verus! {

/// One side of a trade: which order traded, at its own limit, for how much.
#[derive(Debug, Clone, Copy, PartialEq, Eq, Structural)]
pub struct TradeInfo {
    pub order_id: OrderId,
    pub price: Price,
    pub quantity: Quantity,
}

impl TradeInfo {
    pub fn new(order_id: OrderId, price: Price, quantity: Quantity) -> (r: Self)
        ensures
            r == (TradeInfo { order_id, price, quantity }),
    {
        Self { order_id, price, quantity }
    }

    pub fn order_id(&self) -> (r: OrderId)
        ensures
            r == self.order_id,
    {
        self.order_id
    }

    pub fn price(&self) -> (r: Price)
        ensures
            r == self.price,
    {
        self.price
    }

    pub fn quantity(&self) -> (r: Quantity)
        ensures
            r == self.quantity,
    {
        self.quantity
    }
}

/// A match between a resting (maker) order and an incoming (taker) order.
#[derive(Debug, Clone, Copy, PartialEq, Eq, Structural)]
pub struct Trade {
    pub instrument_id: InstrumentId,
    pub bids_trades: TradeInfo,
    pub asks_trades: TradeInfo,
    /// Side of the order that was resting in the book.
    pub maker_side: Side,
}

impl Trade {
    /// The maker's half of the trade.
    pub open spec fn maker_info(self) -> TradeInfo {
        match self.maker_side {
            Side::Buy => self.bids_trades,
            Side::Sell => self.asks_trades,
        }
    }

    /// The taker's half of the trade.
    pub open spec fn taker_info(self) -> TradeInfo {
        match self.maker_side {
            Side::Buy => self.asks_trades,
            Side::Sell => self.bids_trades,
        }
    }

    pub fn new(
        instrument_id: InstrumentId,
        bids_trades: TradeInfo,
        asks_trades: TradeInfo,
        maker_side: Side,
    ) -> (r: Self)
        ensures
            r == (Trade { instrument_id, bids_trades, asks_trades, maker_side }),
    {
        Self { instrument_id, bids_trades, asks_trades, maker_side }
    }

    pub fn bids_trades(&self) -> (r: &TradeInfo)
        ensures
            *r == self.bids_trades,
    {
        &self.bids_trades
    }

    pub fn asks_trades(&self) -> (r: &TradeInfo)
        ensures
            *r == self.asks_trades,
    {
        &self.asks_trades
    }

    pub fn instrument_id(&self) -> (r: InstrumentId)
        ensures
            r == self.instrument_id,
    {
        self.instrument_id
    }

    pub fn maker_side(&self) -> (r: Side)
        ensures
            r == self.maker_side,
    {
        self.maker_side
    }

    /// Execution price: the maker's resting price.
    pub fn price(&self) -> (r: Price)
        ensures
            r == self.maker_info().price,
    {
        match self.maker_side {
            Side::Buy => self.bids_trades.price,
            Side::Sell => self.asks_trades.price,
        }
    }

    /// Executed quantity, as recorded on the bid half.
    pub fn quantity(&self) -> (r: Quantity)
        ensures
            r == self.bids_trades.quantity,
    {
        self.bids_trades.quantity
    }

    pub fn maker_order_id(&self) -> (r: OrderId)
        ensures
            r == self.maker_info().order_id,
    {
        match self.maker_side {
            Side::Buy => self.bids_trades.order_id,
            Side::Sell => self.asks_trades.order_id,
        }
    }

    pub fn taker_order_id(&self) -> (r: OrderId)
        ensures
            r == self.taker_info().order_id,
    {
        match self.maker_side {
            Side::Buy => self.asks_trades.order_id,
            Side::Sell => self.bids_trades.order_id,
        }
    }
}

pub type Trades = Vec<Trade>;

} // verus!
