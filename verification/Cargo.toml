[package]
name = "zhang"
version = "0.1.0"
edition = "2021"
publish = false

[dependencies]
chrono = "0.4"
base64 = "0.13"
mime_guess = "2"
clap = { version = "4", features = ["derive"] }
serde = { version = "1", features = ["derive"] }
serde_json = "1"
