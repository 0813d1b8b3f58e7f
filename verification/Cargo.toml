[package]
name = "linear_tui"
version = "0.1.0"
edition = "2021"
publish = false

[dependencies]
base64 = "0.22"
unicode-width = "0.2"
serde = { version = "1", features = ["derive"] }
serde_json = "1"
crossterm = "0.28"
anyhow = "1"
