[package]
name = "webcrane"
version = "0.1.0"
edition = "2021"
publish = false

[dependencies]
base64 = "0.22"
blake3 = { version = "1", features = ["pure"] }
sha2 = "0.10"
serde = { version = "1", features = ["derive"] }
serde_json = "1"
toml = "0.8"
tokio = { version = "1", features = ["full"] }
tokio-tungstenite = "*"
futures-util = "0.3"
ignore = "0.4"
indicatif = "0.17"
easy-upnp = "*"
external-ip = "*"
