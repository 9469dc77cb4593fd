[package]
name = "ecsctl"
version = "0.11.0"
edition = "2021"
publish = false

[dependencies]
anyhow = "1"
aws-config = "=1.13.0"
aws-sdk-cloudwatchlogs = "=1.162.0"
aws-sdk-ecs = "=1.156.0"
aws-sdk-s3 = "=1.157.0"
aws-sdk-scheduler = "=1.119.0"
aws-sdk-sts = "=1.124.0"
clap = { version = "4", features = ["derive"] }
dirs = "6"
futures = "0.3"
reqwest = "0.12"
serde = { version = "=1.0.229", features = ["derive"] }
serde_json = "=1.0.154"
serde_yaml = "=0.9.34"
tokio = { version = "1", features = ["full"] }
toml = "0.8"
uuid = { version = "=1.29.0", features = ["v4"] }
