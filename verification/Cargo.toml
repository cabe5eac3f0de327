[package]
name = "dynamo_cli"
version = "0.1.0"
edition = "2021"
publish = false

[dependencies]
aws-config = "1"
aws-sdk-dynamodb = "1"
clap = { version = "4", features = ["derive"] }
comfy-table = "7"
tokio = { version = "1", features = ["macros", "rt-multi-thread"] }
