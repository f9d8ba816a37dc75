[package]
name = "datakit"
version = "0.1.0"
edition = "2021"
publish = false

[dependencies]
sha2 = "0.10"
hex = "0.4"
rand = "0.8"
serde = { version = "1", features = ["derive"] }
serde_json = "1"
toml = "0.8"
csv = "1"
chrono = "0.4"
regex = "1"
reqwest = { version = "0.11", default-features = false, features = ["json"] }
tokio = { version = "1", features = ["full"] }
tokio-tungstenite = "0.20"
futures-util = { version = "0.3", features = ["sink"] }
log = "0.4"
env_logger = "0.10"
pnet = "0.34"
aes = "0.8"
aes-gcm = "0.10"
argon2 = "0.5"
block-modes = "0.8"
cbc = { version = "0.1", features = ["alloc"] }
pbkdf2 = "0.12"
thiserror = "1"
