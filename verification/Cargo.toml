[package]
name = "pseudoscript"
version = "0.1.0"
edition = "2021"
publish = false

[dependencies]
strsim = "*"
serde = { version = "*", features = ["derive"] }
toml = "*"
walkdir = "*"
anyhow = "*"
