[package]
name = "pagedb"
version = "0.1.0"
edition = "2021"
publish = false

[dependencies]
bytes = "1"
hmac = "0.12"
parking_lot = "0.12"
sha2 = "0.10"
subtle = "2"
tokio = { version = "1", features = ["fs", "io-util", "rt", "sync"] }
tracing = "0.1"
