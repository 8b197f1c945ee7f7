[package]
name = "morning"
version = "0.1.0"
edition = "2021"
publish = false

[dependencies]
chrono = "*"
dirs = "*"
getopts = "*"
serde = { version = "*", features = ["derive"] }
serde_json = "*"
