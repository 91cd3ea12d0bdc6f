[package]
name = "dho-vault"
version = "0.1.0"
edition = "2021"
publish = false

[dependencies]
flate2 = "1"
image = { version = "0.25", default-features = false, features = ["png"] }
base64 = "0.22"
serde = { version = "1", features = ["derive"] }
serde_json = "1"
