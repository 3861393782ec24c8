[package]
name = "herdr_badges"
version = "0.1.0"
edition = "2021"
publish = false

[dependencies]
serde = { version = "1", features = ["derive"] }
serde_json = "1"
schemars = "*"
ratatui = { version = "*", default-features = false }
tracing = "*"
