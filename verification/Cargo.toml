[package]
name = "ferrum_kv"
version = "0.1.0"
edition = "2021"
publish = false

[dependencies]
indexmap = "2"
log = "0.4"
env_logger = "0.11"
signal-hook = "0.3"
tokio = { version = "1", features = ["full"] }
