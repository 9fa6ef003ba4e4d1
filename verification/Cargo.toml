[package]
name = "applymonitor"
version = "0.1.0"
edition = "2021"
publish = false

[dependencies]
anyhow = "=1.0.104"
argon2 = "=0.5.3"
base64 = "=0.22.1"
chrono = "=0.4.45"
getrandom = "=0.2.17"
js-sys = "=0.3.107"
jwt-simple = { version = "=0.12.17", default-features = false, features = ["pure-rust"] }
serde = { version = "=1.0.229", features = ["derive"] }
serde_json = "=1.0.154"
serde_urlencoded = "=0.7.1"
url = "=2.5.8"
worker = { version = "=0.8.7", features = ["d1"] }
