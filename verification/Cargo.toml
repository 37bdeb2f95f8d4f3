[package]
name = "things"
version = "0.1.0"
edition = "2021"
publish = false

[dependencies]
anyhow = "1"
chrono = "0.4"
clap = { version = "4", features = ["derive"] }
crc32fast = "1"
rand = "0.9"
serde = { version = "1", features = ["derive"] }
serde_json = "1"
