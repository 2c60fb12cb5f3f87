[package]
name = "m3u-filter"
version = "0.1.0"
edition = "2021"
publish = false

[dependencies]
crc32fast = "=1.5.4"
regex = "=1.13.1"
serde = { version = "=1.0.229", features = ["derive"] }
serde_json = "=1.0.154"
serde_yaml = "=0.9.34"
clap = { version = "=4.6.7", features = ["derive"] }
log = "=0.4.35"
env_logger = "=0.11.11"
chrono = "=0.4.45"
enum-iterator = "=2.3.0"
tokio = { version = "=1.54.1", features = ["rt", "net", "macros", "time", "io-util", "sync"] }
jsonwebtoken = "=9.3.1"
