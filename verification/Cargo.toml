[package]
name = "image_scraper"
version = "0.1.0"
edition = "2021"
publish = false

[dependencies]
axum = "=0.8.9"
base64 = "=0.22.1"
bincode = "=2.0.1"
bytes = "=1.12.1"
chrono = "=0.4.45"
clap = { version = "=4.6.7", features = ["derive"] }
clap-verbosity-flag = { version = "=3.0.4", features = ["tracing"] }
cli-helpers = "*"
csv = "=1.4.0"
futures = "=0.3.34"
hex = "=0.4.3"
http = "=1.5.0"
imghdr = "=0.7.0"
log = "=0.4.34"
md5 = "=0.8.1"
mime = "=0.3.17"
reqwest = "=0.12.28"
rocksdb = "=0.25.0"
serde = { version = "=1.0.229", features = ["derive"] }
serde-hex = "*"
thiserror = "=2.0.21"
tokio = { version = "=1.54.1", features = ["full"] }
tokio-util = { version = "=0.7.20", features = ["io"] }
tower-http = { version = "=0.6.11", features = ["trace"] }
tracing-subscriber = "=0.3.23"
