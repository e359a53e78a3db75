[package]
name = "fasing"
version = "0.1.0"
edition = "2021"
publish = false

[dependencies]
regex = "1"
serde = { version = "1", features = ["derive"] }
serde_json = "1"
euclid = { version = "0.22", features = ["serde"] }
anyhow = "1"
