[package]
name = "cups"
version = "0.1.0"
edition = "2021"
publish = false

[dependencies]
base32 = "=0.4.0"
base64 = "=0.13.1"
ed25519-dalek = "=1.0.1"
sha3 = "=0.10.9"
rusqlite = { version = "=0.31.0", features = ["bundled"] }
tokio = { version = "=1.53.2", features = ["full"] }
hyper = { version = "=0.14.32", features = ["full"] }
reqwest = { version = "=0.11.27", default-features = false, features = ["socks"] }
serde = { version = "=1.0.229", features = ["derive"] }
serde_yaml = "=0.9.34"
serde_urlencoded = "0.7"
