[package]
name = "midi2psx"
version = "0.1.0"
edition = "2021"
publish = false

[dependencies]
midly = "*"
log = "*"
env_logger = "*"
