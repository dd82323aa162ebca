[package]
name = "racoon"
version = "0.1.0"
edition = "2021"
publish = false

[dependencies]
urlencoding = "2"
sha1 = "0.10"
base64 = "0.22"
rand = "0.8"
uuid = { version = "1", features = ["v4"] }
chrono = "0.4"
tokio = { version = "1", features = ["io-util", "net", "rt", "sync", "time"] }
tempfile = "3"
serde_json = "1"
