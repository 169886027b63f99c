//! Matching engine: price-time priority order books, a multi-instrument
//! engine that turns commands into outcomes and events, single-writer
//! shards, instrument-to-shard routing, and the request logic of the HTTP
//! gateway.

pub mod commands;
pub mod engine;
pub mod event_bus;
pub mod events;
pub mod orderbook;
pub mod shard;
pub mod shard_map;
pub mod gateway;
pub mod laws;
