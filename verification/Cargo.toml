[package]
name = "structlog"
version = "0.1.0"
edition = "2021"
publish = false

[dependencies]
chrono = "*"
colored = "*"

[dev-dependencies]
serde_json = "*"
