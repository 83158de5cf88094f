[package]
name = "stfcm"
version = "0.1.0"
edition = "2021"
publish = false

[dependencies]
sgp4 = "=1.2.2"
chrono = { version = "=0.4.45", features = ["serde"] }
serde = { version = "1", features = ["derive"] }
serde_json = "1"
thiserror = "1"
tracing = "0.1"
tracing-subscriber = { version = "0.3", features = ["env-filter"] }
tokio = { version = "1", features = ["full"] }
axum = "0.7"
tower-http = { version = "0.5", features = ["cors", "fs"] }
reqwest = { version = "0.12", default-features = false, features = ["gzip", "brotli", "deflate", "rustls-tls"] }
rusqlite = { version = "0.31", features = ["bundled"] }
