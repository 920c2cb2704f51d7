[package]
name = "pyscman"
version = "0.1.0"
edition = "2021"
publish = false

[dependencies]
actix-files = "0.6"
actix-multipart = "0.7"
actix-web = "4"
actix-ws = "0.3"
chrono = { version = "0.4", features = ["serde"] }
env_logger = "0.11"
futures-util = "0.3"
log = "0.4"
sanitize-filename = "*"
serde = { version = "1", features = ["derive"] }
serde_json = "1"
threadpool = "1.8"
tokio = { version = "1", features = ["sync"] }
uuid = { version = "1", features = ["v4"] }
