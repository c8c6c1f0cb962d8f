[package]
name = "example_chat"
version = "0.1.0"
edition = "2021"
publish = false

[dependencies]
axum = { version = "*", features = ["ws"] }
axum-extra = { version = "*", features = ["typed-header"] }
chrono = "*"
futures-util = "*"
headers = "*"
hex = "*"
serde_json = "*"
sha2 = "*"
tokio = { version = "*", features = ["full"] }
uuid = { version = "*", features = ["v4"] }
