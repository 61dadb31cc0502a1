[package]
name = "cliprtc"
version = "0.1.0"
edition = "2021"
publish = false

[dependencies]
sha2 = "=0.10.9"
hex = "=0.4.3"
base64 = "=0.22.1"
serde = { version = "=1.0.229", features = ["derive"] }
serde_json = "=1.0.154"
tar = "=0.4.46"
dashmap = "=6.2.1"
mdns-sd = "=0.21.7"
tokio = { version = "=1.54.1", features = ["io-util", "fs", "rt", "sync"] }
hostname = "=0.4.2"
uuid = { version = "=1.29.0", features = ["v4"] }
rustls = { version = "0.23", default-features = false, features = ["std"] }
