[package]
name = "until_needle"
version = "0.1.0"
edition = "2021"
publish = false

[dependencies]
regex = "1"
futures-core = "0.3"
futures-util = { version = "0.3", features = ["io"] }
