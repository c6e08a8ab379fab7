[package]
name = "rabbit_digger_pro"
version = "0.1.0"
edition = "2021"
publish = false

[dependencies]
anyhow = "1"
base64 = "=0.23.1"
blake2 = "=0.11.0"
bytes = "1"
dirs = "=7.0.0"
fs2 = "=0.4.3"
rand = "=0.10.3"
rhai = { version = "=1.26.1", features = ["serde"] }
serde = { version = "1", features = ["derive"] }
serde_json = "1"
serde_yaml = "=0.9.34"
tokio = { version = "1", features = ["rt", "rt-multi-thread", "net", "io-util", "time", "sync", "fs", "macros", "signal"] }
uuid = { version = "1", features = ["v4"] }
yaml-merge-keys = { version = "=0.9.0", features = ["serde_yaml"] }
