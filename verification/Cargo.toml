[package]
name = "cache_proxy"
version = "0.1.0"
edition = "2021"
publish = false

[dependencies]
siphasher = "*"
hashring = "*"
anyhow = "*"
tracing = "*"
tokio = { version = "*", features = ["rt", "time", "net", "macros"] }
