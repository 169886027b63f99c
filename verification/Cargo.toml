[package]
name = "engine"
version = "0.1.0"
edition = "2021"
publish = false

[dependencies]
thiserror = "2"
crossbeam-channel = "0.5"
serde = { version = "1", features = ["derive"] }
serde_json = "1"
actix-web = { version = "4", default-features = false, features = ["macros"] }
