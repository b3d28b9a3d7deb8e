[package]
name = "mod_sync"
version = "0.1.0"
edition = "2021"
publish = false

[dependencies]
serde_json = { version = "=1.0.151", features = ["float_roundtrip"] }
axum = "=0.6.20"
tokio = { version = "1", features = ["macros", "rt-multi-thread"] }
tracing = "0.1"
tracing-appender = "0.2"
tracing-subscriber = "0.3"
