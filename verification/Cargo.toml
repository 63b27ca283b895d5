[package]
name = "hotkey_plugin"
version = "0.1.0"
edition = "2021"
publish = false

[dependencies]
serde = { version = "=1.0.229", features = ["derive"] }
serde_json = "=1.0.151"
bevy = { version = "=0.12.1", default-features = false }
