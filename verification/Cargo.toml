[package]
name = "chat_core"
version = "0.1.0"
edition = "2021"
publish = false

[dependencies]
uuid = { version = "=1.27.0", features = ["v4", "serde"] }
serde_urlencoded = "=0.7.1"
serde = { version = "*", features = ["derive"] }
actix = "*"
actix-web = "*"
actix-web-actors = "*"
actix-cors = "*"
env_logger = "*"
