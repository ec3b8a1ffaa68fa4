[package]
name = "telemetry_relay"
version = "0.1.0"
edition = "2021"
publish = false

[dependencies]
clap = { version = "*", features = ["derive"] }
env_logger = "*"
futures-util = "*"
log = "*"
serde = { version = "*", features = ["derive"] }
serde_json = "*"
serialport = { version = "*", default-features = false }
tokio = { version = "*", features = ["macros", "rt-multi-thread", "time", "sync"] }
tokio-tungstenite = "*"
toml = "*"
