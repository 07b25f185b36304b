[package]
name = "lambda_runtime_core"
version = "0.1.0"
edition = "2021"
publish = false

[dependencies]
serde = { version = "*", features = ["derive"] }
serde_json = "*"
tokio = { version = "*", default-features = false, features = ["rt", "net", "io-util", "sync", "time"] }
futures = "*"
tower-service = "*"
