[package]
name = "sds"
version = "0.1.0"
edition = "2021"
publish = false

[dependencies]
bytes = "0.5"
chrono = "0.4"
env_logger = "0.7"
hyper = "0.13"
log = "0.4"
rusoto_dynamodb = "0.42"
serde = { version = "1", features = ["derive"] }
serde_json = "1"
tokio = { version = "0.2", features = ["rt-threaded"] }
uuid = { version = "0.8", features = ["v4"] }

[dev-dependencies]
regex = "1"
