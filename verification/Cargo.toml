[package]
name = "proxy_detect"
version = "0.1.0"
edition = "2021"
publish = false

[dependencies]
httparse = "*"
tokio = { version = "*", features = ["io-util", "time", "rt", "sync", "macros"] }
