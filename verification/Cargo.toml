[package]
name = "tileworld"
version = "0.1.0"
edition = "2021"
publish = false

[dependencies]
anyhow = "*"
noise = "*"
tokio = { version = "*", features = ["rt-multi-thread", "net", "sync", "io-util", "macros"] }
uuid = { version = "*", features = ["v4"] }
