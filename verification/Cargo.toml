[package]
name = "voxmim"
version = "0.12.1"
edition = "2021"
publish = false

[dependencies]
regex = "=1.13.1"
serde = { version = "=1.0.229", features = ["derive"] }
serde_json = "=1.0.154"
log = "=0.4.35"
chrono = "=0.4.45"
crossbeam-channel = "=0.5.17"
env_logger = "=0.11.11"
cpal = "0.15"
rdev = "0.5"
