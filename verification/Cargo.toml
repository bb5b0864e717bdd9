[package]
name = "http2_engine"
version = "0.1.0"
edition = "2021"
publish = false

[dependencies]
tokio = { version = "1", default-features = false, features = ["io-util", "net", "rt"] }
