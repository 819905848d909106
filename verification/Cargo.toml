[package]
name = "funrotate"
version = "0.1.0"
edition = "2021"
publish = false

[dependencies]
chrono = "0.4"
csv = "1"
glob = "0.3"
log = "0.4"
serde = { version = "1", features = ["derive"] }
simplelog = "0.12"
toml = "0.8"
