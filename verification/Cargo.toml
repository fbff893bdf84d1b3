[package]
name = "douyin_resolver"
version = "0.1.0"
edition = "2021"
publish = false

[dependencies]
regex = "1"
reqwest = { version = "0.11", features = ["stream"] }
tokio = { version = "1", features = ["full"] }
dirs = "5"
futures-util = "0.3"
