[package]
name = "retail_network"
version = "0.1.0"
edition = "2021"
publish = false

[dependencies]
actix = "0.13"
futures = "0.3"
rand = "0.7"
tokio = { version = "1", features = ["full"] }
tokio-stream = { version = "0.1", features = ["io-util"] }
