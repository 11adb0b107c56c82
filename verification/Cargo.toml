[package]
name = "app_launcher"
version = "0.1.0"
edition = "2021"
publish = false

[dependencies]
rust-ini = "*"
linicon = "*"
dirs = "*"
walkdir = "*"
serde = { version = "*", features = ["derive"] }
serde_json = "*"
