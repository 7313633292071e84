[package]
name = "cdc"
version = "0.1.0"
edition = "2021"
publish = false

[dependencies]
semver = "1"
tokio = { version = "1", features = ["rt-multi-thread", "sync", "time"] }
