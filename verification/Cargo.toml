[package]
name = "dynamodb_client"
version = "0.1.0"
edition = "2021"
publish = false

[dependencies]
aws-config = "1"
aws-sdk-dynamodb = "1"
aws-smithy-runtime-api = "1"
tokio = { version = "1", features = ["full"] }
futures = "0.3"
rayon = "1"
thiserror = "1"
dotenv = "0.15"
csv = "1"
