[package]
name = "mtc_auth"
version = "0.1.0"
edition = "2021"
publish = false

[dependencies]
argon2 = "=0.5.3"
axum = "=0.7.9"
chrono = "=0.4.45"
serde = { version = "=1.0.229", features = ["derive"] }
serde_json = "=1.0.154"
thiserror = "=1.0.69"
tokio = { version = "=1.54.1", features = ["net", "rt"] }
tower-sessions = "=0.12.3"
tracing = "=0.1.44"
validator = { version = "=0.18.1", features = ["derive"] }
