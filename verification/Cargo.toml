[package]
name = "spider"
version = "0.1.0"
edition = "2021"
publish = false

[dependencies]
serde = { version = "1", features = ["derive"] }
serde_json = "1"
crossterm = "0.27"
signal-hook = "0.3"
