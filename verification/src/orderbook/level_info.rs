use crate::orderbook::types::{Price, Quantity};
use vstd::prelude::*;

verus! {

/// Aggregated resting quantity at one price.
#[derive(Debug, Clone, Copy, PartialEq, Eq, Structural)]
pub struct LevelInfo {
    pub price: Price,
    pub quantity: Quantity,
}

impl LevelInfo {
    pub fn new(price: Price, quantity: Quantity) -> (r: Self)
        ensures
            r == (LevelInfo { price, quantity }),
    {
        Self { price, quantity }
    }
}

pub type LevelInfos = Vec<LevelInfo>;

/// Depth snapshot: bid levels best (highest) first, ask levels best (lowest) first.
#[derive(Debug, Clone, PartialEq, Eq)]
pub struct OrderbookLevelInfo {
    bids: LevelInfos,
    asks: LevelInfos,
}

impl View for OrderbookLevelInfo {
    type V = (Seq<LevelInfo>, Seq<LevelInfo>);

    closed spec fn view(&self) -> (Seq<LevelInfo>, Seq<LevelInfo>) {
        (self.bids@, self.asks@)
    }
}

impl OrderbookLevelInfo {
    pub fn new(bids: LevelInfos, asks: LevelInfos) -> (r: Self)
        ensures
            r@ == (bids@, asks@),
    {
        Self { bids, asks }
    }

    pub fn get_bids(&self) -> (r: &LevelInfos)
        ensures
            r@ == self@.0,
    {
        &self.bids
    }

    pub fn get_asks(&self) -> (r: &LevelInfos)
        ensures
            r@ == self@.1,
    {
        &self.asks
    }
}

} // verus!
