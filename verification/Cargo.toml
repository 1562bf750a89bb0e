[package]
name = "poa_token_tools"
version = "0.1.0"
edition = "2021"
publish = false

[dependencies]
anyhow = "=1.0.104"
chrono = "=0.4.45"
clap = { version = "=4.6.7", features = ["derive"] }
near-sdk = { version = "=5.29.1", default-features = false, features = ["non-contract-usage"] }
rand = "=0.10.3"
serde = { version = "*", features = ["derive"] }
serde_json = "*"
