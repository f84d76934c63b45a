[package]
name = "firebase_rs_sdk"
version = "0.1.0"
edition = "2021"
publish = false

[dependencies]
serde = { version = "1", features = ["derive"] }
serde_json = "1"
percent-encoding = "2"
rand = "0.8"
url = "2"
base64 = "0.22"
chrono = { version = "0.4", default-features = false, features = ["std", "alloc"] }
reqwest = { version = "0.12", default-features = false }
