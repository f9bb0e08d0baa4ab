[package]
name = "rust_worker"
version = "0.1.0"
edition = "2021"
publish = false

[dependencies]
uuid = { version = "*", features = ["v4"] }
serde_json = "*"
rmpv = "*"
clap = { version = "*", features = ["derive"] }
log = "*"
env_logger = "*"
