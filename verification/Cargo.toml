[package]
name = "smelt"
version = "0.1.1"
edition = "2021"
publish = false

[dependencies]
anyhow = "1"
clap = { version = "4", features = ["derive"] }
env_logger = "*"
gray_matter = "0.2"
log = "0.4"
regex = "1"
tempfile = "3"
walkdir = "2"
