use crate::orderbook::order_type::OrderType;
use crate::orderbook::side::Side;
use crate::orderbook::types::{OrderId, Price, Quantity, INVALID_PRICE};
use std::collections::VecDeque;
use vstd::prelude::*;

verus! {

#[derive(Debug, Clone, Copy, PartialEq, Eq, Structural)]
pub enum OrderError {
    /// The fill asked for more than the order has left.
    OverFill(OrderId),
    /// Only a market order can be given a price.
    InvalidPriceAdjustment(OrderId),
}

#[derive(Debug, Clone, Copy, PartialEq, Eq, Structural)]
pub struct Order {
    pub order_id: OrderId,
    pub side: Side,
    pub order_type: OrderType,
    pub price: Price,
    pub initial_quantity: Quantity,
    pub remaining_quantity: Quantity,
}

/// The order as `Order::new` builds it.
pub open spec fn new_order(
    order_id: OrderId,
    side: Side,
    order_type: OrderType,
    price: Price,
    quantity: Quantity,
) -> Order {
    Order {
        order_id,
        side,
        order_type,
        price,
        initial_quantity: quantity,
        remaining_quantity: quantity,
    }
}

/// `o` after `q` more lots of it have traded.
pub open spec fn filled_by(o: Order, q: int) -> Order {
    Order { remaining_quantity: (o.remaining_quantity - q) as u32, ..o }
}

impl Order {
    pub fn new(
        order_id: OrderId,
        side: Side,
        order_type: OrderType,
        price: Price,
        quantity: Quantity,
    ) -> (o: Self)
        ensures
            o == new_order(order_id, side, order_type, price, quantity),
    {
        Self {
            order_id,
            side,
            order_type,
            price,
            initial_quantity: quantity,
            remaining_quantity: quantity,
        }
    }

    /// An order without a limit price; the book prices it when it arrives.
    pub fn market(order_id: OrderId, side: Side, order_type: OrderType, quantity: Quantity) -> (o:
        Self)
        ensures
            o == new_order(order_id, side, order_type, INVALID_PRICE, quantity),
    {
        Self::new(order_id, side, order_type, INVALID_PRICE, quantity)
    }

    pub fn order_id(&self) -> (r: OrderId)
        ensures
            r == self.order_id,
    {
        self.order_id
    }

    pub fn side(&self) -> (r: Side)
        ensures
            r == self.side,
    {
        self.side
    }

    pub fn price(&self) -> (r: Price)
        ensures
            r == self.price,
    {
        self.price
    }

    pub fn order_type(&self) -> (r: OrderType)
        ensures
            r == self.order_type,
    {
        self.order_type
    }

    pub fn initial_quantity(&self) -> (r: Quantity)
        ensures
            r == self.initial_quantity,
    {
        self.initial_quantity
    }

    pub fn remaining_quantity(&self) -> (r: Quantity)
        ensures
            r == self.remaining_quantity,
    {
        self.remaining_quantity
    }

    pub fn filled_quantity(&self) -> (r: Quantity)
        requires
            self.remaining_quantity <= self.initial_quantity,
        ensures
            r == self.initial_quantity - self.remaining_quantity,
    {
        self.initial_quantity - self.remaining_quantity
    }

    pub fn is_filled(&self) -> (r: bool)
        ensures
            r == (self.remaining_quantity == 0),
    {
        self.remaining_quantity == 0
    }

    /// Take `quantity` lots off what is left of the order. An over-fill
    /// leaves the order as it was and is handed back as `OverFill`, for
    /// the caller to report.
    pub fn fill(&mut self, quantity: Quantity) -> (r: Result<(), OrderError>)
        ensures
            quantity <= old(self).remaining_quantity ==> r is Ok && *final(self) == filled_by(
                *old(self),
                quantity as int,
            ),
            quantity > old(self).remaining_quantity ==> r == Err::<(), OrderError>(
                OrderError::OverFill(old(self).order_id),
            ) && *final(self) == *old(self),
    {
        if quantity > self.remaining_quantity {
            return Err(OrderError::OverFill(self.order_id));
        }
        self.remaining_quantity = self.remaining_quantity - quantity;
        Ok(())
    }

    /// Give a market order a limit price, turning it into a good-till-cancel order.
    pub fn to_good_till_cancel(&mut self, price: Price) -> (r: Result<(), OrderError>)
        ensures
            old(self).order_type == OrderType::Market ==> r is Ok && *final(self) == (Order {
                price,
                order_type: OrderType::GoodTillCancel,
                ..*old(self)
            }),
            old(self).order_type != OrderType::Market ==> r == Err::<(), OrderError>(
                OrderError::InvalidPriceAdjustment(old(self).order_id),
            ) && *final(self) == *old(self),
    {
        if self.order_type != OrderType::Market {
            return Err(OrderError::InvalidPriceAdjustment(self.order_id));
        }
        self.price = price;
        self.order_type = OrderType::GoodTillCancel;
        Ok(())
    }
}

pub type OrderList = VecDeque<Order>;

} // verus!
