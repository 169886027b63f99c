use crate::orderbook::order::{new_order, Order};
use crate::orderbook::order_type::OrderType;
use crate::orderbook::side::Side;
use crate::orderbook::types::{OrderId, Price, Quantity};
use vstd::prelude::*;

verus! {

/// A request to replace a resting order's price and quantity.
#[derive(Debug, Clone, Copy, PartialEq, Eq, Structural)]
pub struct OrderModify {
    pub order_id: OrderId,
    pub side: Side,
    pub price: Price,
    pub quantity: Quantity,
}

impl OrderModify {
    pub fn new(order_id: OrderId, side: Side, price: Price, quantity: Quantity) -> (r: Self)
        ensures
            r == (OrderModify { order_id, side, price, quantity }),
    {
        Self { order_id, side, price, quantity }
    }

    pub fn order_id(&self) -> (r: OrderId)
        ensures
            r == self.order_id,
    {
        self.order_id
    }

    pub fn side(&self) -> (r: Side)
        ensures
            r == self.side,
    {
        self.side
    }

    pub fn price(&self) -> (r: Price)
        ensures
            r == self.price,
    {
        self.price
    }

    pub fn quantity(&self) -> (r: Quantity)
        ensures
            r == self.quantity,
    {
        self.quantity
    }

    pub open spec fn modified_spec(self, order_type: OrderType) -> Order {
        new_order(self.order_id, self.side, order_type, self.price, self.quantity)
    }

    /// The replacement order, keeping the type of the order it replaces.
    pub fn modify(&self, order_type: OrderType) -> (r: Order)
        ensures
            r == self.modified_spec(order_type),
    {
        Order::new(self.order_id, self.side, order_type, self.price, self.quantity)
    }
}

} // verus!
