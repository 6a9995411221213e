[package]
name = "orange_storage"
version = "0.1.0"
edition = "2021"
publish = false

[dependencies]
easy_secp256k1 = "=0.2.0"
secp256k1 = "=0.31.1"
hex = "=0.4.3"
chrono = "=0.4.45"
serde = { version = "=1.0.229", features = ["derive"] }
serde_json = "=1.0.151"
url = "=2.5.8"
