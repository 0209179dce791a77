[package]
name = "chat_bridge"
version = "0.1.0"
edition = "2021"
publish = false

[dependencies]
axum = { version = "0.8", default-features = false }
chrono = { version = "0.4", default-features = false, features = ["clock"] }
serde_json = "1"
uuid = { version = "1", features = ["v4"] }
