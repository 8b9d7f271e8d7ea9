[package]
name = "texture_scan"
version = "0.1.0"
edition = "2021"
publish = false

[dependencies]
clap = { version = "*", features = ["derive"] }
core_affinity = "*"
env_logger = "*"
log = "*"
serde = { version = "*", features = ["derive"] }
toml = "*"
