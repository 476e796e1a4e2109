[package]
name = "transcoder-core"
version = "0.1.0"
edition = "2021"
publish = false

[dependencies]
anyhow = "1"
base64 = "0.22"
tokio = { version = "1", features = ["rt", "sync", "time"] }
tonic = { version = "0.12", default-features = false, features = ["transport", "tls"] }
tracing = "0.1"
uuid = { version = "1", features = ["v4"] }
