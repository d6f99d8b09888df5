[package]
name = "provewhen"
version = "0.1.0"
edition = "2021"
publish = false

[dependencies]
base64 = "*"
chrono = "*"
ring = "*"
serde = { version = "*", features = ["derive"] }
serde_json = "*"
