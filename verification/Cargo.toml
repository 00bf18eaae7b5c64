[package]
name = "ubgp"
version = "0.1.0"
edition = "2021"
publish = false

[dependencies]
anyhow = "1"
ipnet = { version = "2", features = ["serde"] }
libc = "0.2"
serde = { version = "1", features = ["derive"] }
socket2 = { version = "0.6", features = ["all"] }
tokio = { version = "1", features = ["io-util", "macros", "net", "rt-multi-thread", "signal", "sync", "time"] }
toml = "0.9"
tracing = "0.1"
tracing-subscriber = { version = "0.3", features = ["env-filter"] }
