[package]
name = "supac"
version = "0.1.0"
edition = "2021"
publish = false

[dependencies]
serde_json = "1"
anyhow = "1"
clap = { version = "4", features = ["derive"] }
env_logger = "0.11"
inquire = "0.7"
log = "0.4"
