[package]
name = "gitnu"
version = "0.1.0"
edition = "2021"
publish = false

[dependencies]
chrono = "*"
clap = { version = "*", features = ["derive"] }
colored = "*"
flate2 = "*"
serde = { version = "*", features = ["derive"] }
serde_json = "*"
sha2 = "*"
tar = "*"
toml = "*"
walkdir = "*"
