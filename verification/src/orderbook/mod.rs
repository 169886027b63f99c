pub mod book_model;
pub mod level_info;
pub mod order;
pub mod order_modify;
pub mod order_type;
pub mod orderbook;
pub mod side;
pub mod trade;
pub mod types;
