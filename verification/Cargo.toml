[package]
name = "prefix_server"
version = "0.1.0"
edition = "2021"
publish = false

[dependencies]
bitcoin_hashes = "*"
hex = "*"
serde_json = "*"
