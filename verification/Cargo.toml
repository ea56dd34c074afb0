[package]
name = "smart_speaker"
version = "0.1.0"
edition = "2021"
publish = false

[dependencies]
anyhow = "=1.0.104"
base64 = "=0.22.1"
chrono = "=0.4.45"
env_logger = "=0.10.2"
log = "=0.4.35"
reqwest = { version = "=0.11.27", default-features = false, features = ["blocking", "json", "rustls-tls"] }
rodio = { version = "=0.19.0", default-features = false, features = ["wav"] }
serde = { version = "=1.0.229", features = ["derive"] }
serde_json = "=1.0.154"
thiserror = "=1.0.69"
tiny_http = "=0.12.0"
toml = "0.8"
urlencoding = "=2.1.3"
