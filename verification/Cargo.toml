[package]
name = "speed_rs"
version = "0.1.0"
edition = "2021"
publish = false

[dependencies]
mime_guess = "2"
serde_json = "1"
serde_qs = "*"
