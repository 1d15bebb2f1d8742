[package]
name = "knnzip"
version = "0.1.0"
edition = "2021"
publish = false

[dependencies]
flate2 = "*"
csv = "*"
serde = { version = "*", features = ["derive"] }
