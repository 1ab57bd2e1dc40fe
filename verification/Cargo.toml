[package]
name = "media_storage"
version = "0.1.0"
edition = "2021"
publish = false

[dependencies]
sha2 = "*"
base64 = "*"
serde = { version = "*", features = ["derive"] }
