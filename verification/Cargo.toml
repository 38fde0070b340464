[package]
name = "routini"
version = "0.1.0"
edition = "2021"
publish = false

[dependencies]
matchit = "*"
serde = { version = "*", features = ["derive"] }
serde_json = "*"
