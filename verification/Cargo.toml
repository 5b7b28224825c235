[package]
name = "llhls"
version = "0.1.0"
edition = "2021"
publish = false

[dependencies]
aws-sdk-s3 = { version = "1", default-features = false, features = ["rt-tokio"] }
bytes = "1"
chrono = "0.4"
env_logger = "0.11"
futures = "0.3"
hex = "0.4"
hmac = "0.12"
log = "0.4"
m3u8-rs = "6"
notify = "8"
reqwest = { version = "0.12", default-features = false, features = ["json", "rustls-tls"] }
scuffle-rtmp = "*"
serde = { version = "1", features = ["derive"] }
sha2 = "0.10"
tokio = { version = "1", features = ["full"] }
toml = "0.8"
