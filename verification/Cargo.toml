[package]
name = "openmc"
version = "0.1.0"
edition = "2021"
publish = false

[dependencies]
uuid = { version = "1", features = ["v3"] }
rand = "0.8"
tokio = { version = "1", features = ["full"] }
