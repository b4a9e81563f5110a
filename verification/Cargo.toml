[package]
name = "symseek"
version = "0.1.0"
edition = "2021"
publish = false

[dependencies]
regex = "*"
path-clean = "*"
serde = { version = "*", features = ["derive"] }
serde_json = "*"
clap = { version = "*", features = ["derive"] }
log = "*"
env_logger = "*"
