[package]
name = "nimble"
version = "0.1.0"
edition = "2021"
publish = false

[dependencies]
futures-util = { version = "*", features = ["io"] }

[dev-dependencies]
rand = "0.8"
