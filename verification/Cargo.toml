[package]
name = "recall"
version = "0.1.0"
edition = "2021"
publish = false

[dependencies]
anyhow = "1"
ort = { version = "=2.0.0-rc.12", default-features = false, features = ["std", "load-dynamic", "api-24"] }
parking_lot = "0.12"
reqwest = { version = "=0.12.28", default-features = false, features = ["blocking", "json"] }
serde = { version = "1", features = ["derive"] }
serde_json = "=1.0.154"
tokenizers = { version = "=0.22.2", default-features = false, features = ["fancy-regex"] }
tokio = { version = "1", features = ["rt"] }
tracing = "0.1"
uuid = { version = "=1.29.0", features = ["v5"] }
