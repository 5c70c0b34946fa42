[package]
name = "companion_core"
version = "0.1.0"
edition = "2021"
publish = false

[dependencies]
serde_json = "1"
uuid = { version = "1", features = ["v4"] }
sha2 = "0.10"
hex = "0.4"
tokio = { version = "1", features = ["rt-multi-thread", "macros", "process", "io-util", "sync"] }

[dev-dependencies]
tempfile = "3"
