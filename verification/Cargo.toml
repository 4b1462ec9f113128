[package]
name = "orderbook-feed"
version = "0.1.0"
edition = "2021"
publish = false

[dependencies]
anyhow = "=1.0.104"
async-std = { version = "=1.13.2", features = ["attributes"] }
async-tungstenite = { version = "=0.28.2", features = ["async-std-runtime", "async-tls"] }
clap = { version = "=4.6.7", features = ["derive"] }
env_logger = "=0.11.11"
futures = "=0.3.34"
log = "=0.4.35"
rust_decimal = "=1.43.0"
serde = { version = "=1.0.229", features = ["derive"] }
serde_json = "=1.0.154"
surf = { version = "=2.3.2", default-features = false, features = ["h1-client-rustls"] }
