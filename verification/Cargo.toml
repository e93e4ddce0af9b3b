[package]
name = "rust_lambda_fed"
version = "0.1.0"
edition = "2021"
publish = false

[dependencies]
base64 = "0.13"
log = "0.4"
pretty_env_logger = "*"

[dev-dependencies]
serde_json = "1"
