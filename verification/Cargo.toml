[package]
name = "eg"
version = "0.1.0"
edition = "2021"
publish = false

[dependencies]
anyhow = "1"
hmac = "0.12"
num-bigint = "0.4"
num-traits = "0.2"
serde = { version = "1", features = ["derive"] }
serde_json = "1"
sha2 = "0.10"
sha3 = "0.10"
