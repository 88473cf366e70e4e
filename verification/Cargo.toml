[package]
name = "apphub"
version = "0.1.0"
edition = "2021"
publish = false

[dependencies]
base64 = "=0.21.7"
md5 = "=0.7.0"
image = { version = "=0.24.9", default-features = false, features = ["png"] }
url = "=2.5.8"
notify = "=6.1.1"
serde = { version = "=1.0.229", features = ["derive"] }
serde_json = "=1.0.151"
