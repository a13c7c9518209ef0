[package]
name = "pow_sha256"
version = "0.1.0"
edition = "2021"
publish = false

[dependencies]
sha2 = "=0.11.0"
serde = { version = "1", features = ["derive"] }
bincode = "1"
derive_builder = "*"
