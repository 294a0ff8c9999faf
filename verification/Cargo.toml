[package]
name = "peer_registry"
version = "0.1.0"
edition = "2021"
publish = false

[dependencies]
multimap = "=0.8.3"
serde = { version = "=1.0.229", features = ["derive"] }
serde_json = "=1.0.151"
