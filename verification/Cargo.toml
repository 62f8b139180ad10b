[package]
name = "telegram_drive_headless"
version = "0.1.0"
edition = "2021"
publish = false

[dependencies]
actix-multipart = "0.7"
actix-web = "4"
async-stream = "0.3"
constant_time_eq = "*"
env_logger = "0.11"
futures = "0.3"
grammers-client = "0.8"
grammers-mtsender = "0.8"
grammers-session = "0.8"
grammers-tl-types = "0.8"
hmac = "0.12"
log = "0.4"
rpassword = "7"
serde = { version = "1", features = ["derive"] }
serde_json = "1"
sha2 = "0.10"
tempfile = "3"
tokio = { version = "1", features = ["full"] }
tokio-util = { version = "0.7", features = ["io"] }
