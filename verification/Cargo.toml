[package]
name = "atlas"
version = "0.1.0"
edition = "2021"
publish = false

[dependencies]
ring = "0.17"
sha1 = "0.10"
base64 = "0.22"
serde = { version = "1", features = ["derive"] }
