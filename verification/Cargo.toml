[package]
name = "battleplan"
version = "0.1.0"
edition = "2021"
publish = false

[dependencies]
yaml-rust = "0.4"
regex = "1"
url = "2"
chrono = "0.4"
openssl-probe = "0.1"
serde = { version = "1", features = ["derive"] }
serde_json = "1"
serde_yaml = "0.9"
clap = "4"
env_logger = "0.11"
log = "0.4"
native-tls = "0.2"
