[package]
name = "qwen2api-rs"
version = "0.1.0"
edition = "2021"
publish = false

[dependencies]
arc-swap = "1"
async-stream = "0.3"
fancy-regex = "=0.13.0"
futures-util = "0.3"
hex = "=0.4.3"
rand = "0.8"
reqwest = { version = "0.12", default-features = false, features = ["rustls-tls", "http2", "json", "stream", "gzip"] }
serde = { version = "1", features = ["derive"] }
serde_json = "=1.0.154"
sha2 = "=0.10.9"
tiktoken-rs = "=0.6.0"
tokio = { version = "1", features = ["full"] }
tracing = "0.1"
uuid = { version = "1", features = ["v4"] }
