[package]
name = "openchat"
version = "0.1.0"
edition = "2021"
publish = false

[dependencies]
anyhow = "*"
env_logger = "*"
log = "*"
serde = { version = "*", features = ["derive"] }
toml = "*"
tungstenite = "*"
