[package]
name = "caph"
version = "0.1.0"
edition = "2021"
publish = false

[dependencies]
base64 = "0.13"
chrono = "0.4"
hmac = "0.12"
rand = "0.8"
rand_chacha = "0.3"
serde = { version = "1", features = ["derive"] }
serde_json = "1"
sha2 = "0.10"
