[package]
name = "pg_fibertools"
version = "0.1.0"
edition = "2021"
publish = false

[dependencies]
rust-htslib = { version = "*", default-features = false }
linear-map = "*"
clap = { version = "*", features = ["derive"] }
log = "*"
env_logger = "*"
anyhow = "*"
