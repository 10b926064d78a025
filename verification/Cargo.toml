[package]
name = "message_broker"
version = "0.1.0"
edition = "2021"
publish = false

[dependencies]
tokio = { version = "1", features = ["macros", "rt-multi-thread", "sync", "time", "signal"] }
tokio-stream = "0.1"
tonic = "0.10"
chrono = "0.4"
futures = "0.3"
