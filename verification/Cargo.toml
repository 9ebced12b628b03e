[package]
name = "ingest"
version = "0.1.0"
edition = "2021"
publish = false

[dependencies]
encoding_rs = "*"
globset = "*"
shellexpand = "*"
walkdir = "*"
toml = "*"
serde = { version = "*", features = ["derive"] }
