[package]
name = "rmc_core"
version = "0.1.0"
edition = "2021"
publish = false

[dependencies]
bytes = "1"
tokio = { version = "1", features = ["rt-multi-thread", "net", "sync", "time", "io-util", "macros", "signal"] }
socket2 = "0.5"
clap = { version = "4", features = ["derive"] }

[dev-dependencies]
serde_json = "1"
