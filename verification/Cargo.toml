[package]
name = "sonium"
version = "0.1.0"
edition = "2021"
publish = false

[dependencies]
uuid = { version = "=1.29.0", features = ["v4"] }
serde = { version = "=1.0.229", features = ["derive"] }
serde_json = "=1.0.154"
toml = "=0.8.23"
anyhow = "=1.0.104"
parking_lot = "=0.12.5"
argon2 = { version = "0.5", features = ["std"] }
sha2 = "0.10"
rand = "0.8"
jsonwebtoken = "9"
