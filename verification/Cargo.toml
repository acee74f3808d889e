[package]
name = "block_pool"
version = "0.1.0"
edition = "2021"
publish = false

[dependencies]
tokio = { version = "1", features = ["sync", "rt", "macros"] }
tracing = "0.1"
derive-getters = "0.5"
