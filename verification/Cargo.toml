[package]
name = "auto_number"
version = "0.1.0"
edition = "2021"
publish = false

[dependencies]
anyhow = "1"
time = { version = "0.3", features = ["local-offset"] }

[dev-dependencies]
regex = "1"
