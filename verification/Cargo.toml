[package]
name = "web_route"
version = "0.1.0"
edition = "2021"
publish = false

[dependencies]
serde = { version = "1", features = ["derive"] }
serde_json = "1"
uuid = "1"
thiserror = "*"
fake = { version = "*", features = ["derive"] }
