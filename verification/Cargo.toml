[package]
name = "ai_proxy"
version = "0.1.0"
edition = "2021"
publish = false

[dependencies]
axum = "=0.8.9"
dirs = "=6.0.0"
flate2 = "=1.1.10"
log = "=0.4.35"
once_cell = "=1.21.4"
regex = "=1.13.1"
reqwest = { version = "=0.12.28", default-features = false, features = ["blocking", "json", "rustls-tls", "stream"] }
serde = { version = "=1.0.229", features = ["derive"] }
serde_json = "=1.0.154"
tar = "=0.4.46"
tokio = { version = "=1.54.1", features = ["rt-multi-thread", "sync", "net", "macros", "time"] }
tower-http = { version = "=0.6.11", features = ["cors"] }
uuid = { version = "=1.29.0", features = ["v4"] }
zip = { version = "=2.6.1", default-features = false, features = ["deflate"] }
