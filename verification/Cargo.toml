[package]
name = "shift_ledger"
version = "0.1.0"
edition = "2021"
publish = false

[dependencies]
bdays = "*"
chrono = "0.4"
chrono-tz = "*"
aws-config = "1"
aws-sdk-dynamodb = "1"
aws-sdk-ssm = "1"
futures = "0.3"
lambda_runtime = "*"
reqwest = { version = "*", default-features = false, features = ["json", "rustls-tls"] }
serde = { version = "1", features = ["derive"] }
serde_json = "1"
thiserror = "1"
tokio = { version = "1", features = ["macros"] }
tracing = "0.1"
tracing-subscriber = "0.3"
