[package]
name = "herdr_strays"
version = "0.1.0"
edition = "2021"
publish = false

[dependencies]
crossterm = "=0.28.1"
ratatui = "=0.29.0"
serde = { version = "=1.0.229", features = ["derive"] }
serde_json = { version = "=1.0.154", features = ["preserve_order"] }
shell-words = "=1.1.1"
toml = { version = "=0.8.23", features = ["preserve_order"] }
