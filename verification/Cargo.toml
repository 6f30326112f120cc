[package]
name = "engine_io"
version = "0.1.0"
edition = "2021"
publish = false

[dependencies]
base64 = "0.13"
uuid = { version = "0.8", features = ["v4"] }
serde = { version = "1", features = ["derive"] }
serde_json = "1"
chrono = "0.4"
regex = "1"
