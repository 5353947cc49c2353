[package]
name = "cache_diagnostics"
version = "0.1.0"
edition = "2021"
publish = false

[dependencies]
dashmap = "6"
rand = "0.8"
serde_json = { version = "1", features = ["preserve_order"] }
sha2 = "0.10"
tracing = "0.1"
