[package]
name = "bua"
version = "0.1.0"
edition = "2021"
publish = false

[dependencies]
keyring = { version = "=3.6.3", default-features = false, features = ["apple-native", "async-secret-service", "async-io", "crypto-rust"] }
serde = { version = "=1.0.229", features = ["derive"] }
serde_json = "=1.0.154"
