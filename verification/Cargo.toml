[package]
name = "bridge_priv_rs"
version = "0.1.0"
edition = "2021"
publish = false

[dependencies]
http = "*"
reqwest = { version = "*", default-features = false }
reqwest-websocket = "*"
tokio = { version = "*", features = ["rt-multi-thread", "macros", "net", "sync", "io-util", "time"] }
tokio-util = "*"
futures = "*"
