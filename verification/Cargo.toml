[package]
name = "thunder"
version = "0.1.0"
edition = "2021"
publish = false

[dependencies]
dashmap = "*"
tokio = { version = "*", features = ["rt-multi-thread", "sync", "time", "macros"] }
log = "*"
anyhow = "*"
tonic = { version = "*", default-features = false }
