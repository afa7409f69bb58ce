[package]
name = "pelican_post"
version = "0.1.0"
edition = "2021"
publish = false

[dependencies]
anyhow = "*"
chrono = "*"
clap = { version = "*", features = ["derive"] }
env_logger = "*"
log = "*"
slug = "*"
tempfile = "*"
walkdir = "*"
