[package]
name = "ma_world"
version = "0.1.0"
edition = "2021"
publish = false

[dependencies]
sha2 = "=0.10.9"
base64 = "=0.22.1"
argon2 = "=0.5.3"
chacha20poly1305 = "=0.10.1"
serde = { version = "=1.0.229", features = ["derive"] }
serde_json = "=1.0.154"
serde_yaml = "=0.9.34"
anyhow = "=1.0.104"
