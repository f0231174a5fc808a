[package]
name = "grugchat"
version = "0.1.0"
edition = "2021"
publish = false

[dependencies]
anyhow = "*"
axum = "=0.8.9"
celestia-rpc = "=1.3.0"
celestia-types = "=1.3.0"
ed25519-dalek = "=3.0.0"
futures = "*"
hex = "*"
keystore-rs = "=0.3.1"
reqwest = { version = "=0.13.5", default-features = false, features = ["json"] }
serde = { version = "*", features = ["derive"] }
serde_json = "*"
tokio = { version = "=1.53.2", features = ["macros", "rt-multi-thread", "sync", "time", "net"] }
