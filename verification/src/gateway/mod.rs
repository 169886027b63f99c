//! The request logic of the HTTP gateway: parsing and validating request
//! fields, building engine commands, and deciding each response's status
//! and body. The HTTP server itself lives outside this library.

pub mod config;
pub mod engine_handle;
pub mod handlers;
pub mod http_models;
pub mod parsing;
pub mod router;
