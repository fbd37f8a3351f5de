[package]
name = "grid_product"
version = "0.1.0"
edition = "2021"
publish = false

[dependencies]
sha2 = "*"
secp256k1 = "*"
sawtooth-sdk = "*"
serde = { version = "*", features = ["derive"] }
serde_yaml = "*"
reqwest = { version = "*", default-features = false, features = ["blocking", "json"] }
