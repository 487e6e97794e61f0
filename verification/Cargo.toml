[package]
name = "auth2api"
version = "0.1.0"
edition = "2021"
publish = false

[dependencies]
serde = { version = "=1.0.229", features = ["derive"] }
serde_json = "=1.0.154"
base64 = "=0.22.1"
rand = "=0.8.8"
chrono = "=0.4.45"
reqwest = { version = "=0.12.28", default-features = false, features = ["json", "stream", "socks"] }
url = "=2.5.8"
uuid = { version = "=1.29.0", features = ["v4"] }
sha2 = "0.10"
axum = "=0.8.9"
tokio = { version = "=1.54.1", features = ["full"] }
tower-http = { version = "=0.6.11", features = ["cors", "trace"] }
clap = { version = "=4.6.7", features = ["derive"] }
toml = "=0.8.23"
directories = "=5.0.1"
tracing = "=0.1.44"
tracing-subscriber = { version = "=0.3.23", features = ["env-filter"] }
async-stream = "=0.3.6"
futures-util = "=0.3.34"
open = "=5.4.5"
if-addrs = "=0.13.4"
