[package]
name = "api_rate_limiting"
version = "0.1.0"
edition = "2021"
publish = false

[dependencies]
actix-web = "=4.18.1"
env_logger = "=0.11.11"

[dev-dependencies]
serde_json = "=1.0.154"
