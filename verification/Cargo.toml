[package]
name = "niinii"
version = "0.1.0"
edition = "2021"
publish = false

[dependencies]
tiktoken-rs = "=0.12.1"
base64 = "=0.23.1"
fancy-regex = "=0.20.0"
serde = { version = "=1.0.229", features = ["derive"] }
serde_json = "=1.0.154"
tokio = { version = "=1.54.1", features = ["process", "io-util", "sync", "rt", "macros", "fs"] }
toml = "=1.1.8"
dirs = "=7.0.0"
csv-async = { version = "=1.3.1", features = ["tokio"] }
futures = "=0.3.34"
thiserror = "=2.0.21"
lru = "*"
