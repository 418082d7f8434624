[package]
name = "quickwit"
version = "0.1.0"
edition = "2021"
publish = false

[dependencies]
flume = "*"
uuid = { version = "*", features = ["v4"] }
chrono = "0.4"
tokio = { version = "1", features = ["rt-multi-thread", "time", "sync", "macros"] }
serde = { version = "1", features = ["derive"] }
serde_json = "1"
async-trait = "0.1"
