[package]
name = "cosmicbar"
version = "0.1.0"
edition = "2021"
publish = false

[dependencies]
anyhow = "1"
env_logger = "*"
futures = "0.3"
inotify = "*"
jiff = "0.2"
log = "0.4"
nvml-wrapper = "*"
serde = { version = "1", features = ["derive"] }
serde_json = "1"
tokio = { version = "1", features = ["full"] }
toml = "*"
zbus = { version = "5", default-features = false, features = ["tokio"] }
