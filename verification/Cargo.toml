[package]
name = "isochronator"
version = "0.1.0"
edition = "2021"
publish = false

[dependencies]
anyhow = "1"
cpal = "*"
log = "0.4"
env_logger = "*"
