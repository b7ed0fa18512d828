[package]
name = "session_relay"
version = "0.1.0"
edition = "2021"
publish = false

[dependencies]
uuid = { version = "1", features = ["v4"] }
tokio = { version = "1", features = ["full"] }
wtransport = "*"
rcgen = "0.13"

[dev-dependencies]
bincode = "1.3"
