[package]
name = "medblock"
version = "0.1.0"
edition = "2021"
publish = false

[dependencies]
uuid = { version = "1", features = ["v4"] }
hex = "*"
serde = "*"
serde_json = "*"
candid = "*"
ic-cdk = "*"
