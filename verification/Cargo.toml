[package]
name = "tsap"
version = "0.1.0"
edition = "2021"
publish = false

[dependencies]
toml = "*"
glob = "*"
serde = { version = "*", features = ["derive"] }
