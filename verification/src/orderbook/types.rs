use vstd::prelude::*;

verus! {

/// Limit price in ticks.
pub type Price = i32;

/// Quantity in lots.
pub type Quantity = u32;

/// Client-chosen order identifier, unique within one book.
pub type OrderId = u64;

pub type OrderIds = Vec<OrderId>;

/// Placeholder price carried by market orders until the book gives them one.
pub const INVALID_PRICE: Price = i32::MIN;

} // verus!
