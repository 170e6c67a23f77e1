[package]
name = "jiji-hamster-bridge"
version = "0.1.0"
edition = "2021"
publish = false

[dependencies]
anyhow = "1"
chrono = "0.4"
env_logger = "0.11"
futures-util = "0.3"
log = "0.4"
notify = "8"
regex = "1"
serde = { version = "1", features = ["derive"] }
serde_json = "1"
tokio = { version = "1", features = ["io-util", "macros", "process", "rt", "signal", "sync", "time"] }
toml = "0.9"
zbus = { version = "5", default-features = false, features = ["tokio"] }
