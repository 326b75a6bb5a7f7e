[package]
name = "throttler"
version = "0.1.0"
edition = "2021"
publish = false

[dependencies]
aws-sdk-dynamodb = { version = "*", default-features = false }
thiserror = "*"
tokio = { version = "*", features = ["sync", "time", "rt", "rt-multi-thread", "macros"] }
