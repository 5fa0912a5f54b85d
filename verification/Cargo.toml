[package]
name = "public_logs"
version = "0.1.0"
edition = "2021"
publish = false

[dependencies]
axum = "0.8"
eyre = "0.6"
percent-encoding = "2"
regex = "1"
serde = { version = "1", features = ["derive"] }
serde_json = "1"
tokio = { version = "1", features = ["fs", "rt"] }
tracing = "0.1"
