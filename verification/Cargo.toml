[package]
name = "katok"
version = "0.1.0"
edition = "2021"
publish = false

[dependencies]
aes = "=0.8.4"
anyhow = "=1.0.104"
cbc = "=0.1.2"
chrono = { version = "=0.4.45", features = ["serde"] }
clap = { version = "=4.6.7", features = ["derive"] }
dirs = "=5.0.1"
rusqlite = { version = "=0.31.0", features = ["bundled"] }
serde = { version = "=1.0.229", features = ["derive"] }
serde_json = "=1.0.154"
sha1 = "=0.10.7"
sha2 = "=0.10.9"
thiserror = "=1.0.69"
tokio = { version = "=1.54.1", features = ["rt", "macros"] }
toml = "=0.8.23"
unicode-normalization = "=0.1.26"
ureq = "=3.5.1"
core-foundation = "=0.10.1"
core-graphics = "=0.24.0"
fastembed = { version = "=5.17.4", default-features = false, features = ["hf-hub-rustls-tls", "ort-load-dynamic"] }
objc2 = "0.6"
objc2-app-kit = "0.3"
objc2-foundation = "0.3"
