[package]
name = "service_api"
version = "0.1.0"
edition = "2021"
publish = false

[dependencies]
actix-web = "4"
actix-web-validator = "*"
schemars = "*"
serde = { version = "1", features = ["derive"] }
tokio = { version = "1", features = ["sync"] }
