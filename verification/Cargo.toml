[package]
name = "imap_ext"
version = "0.1.0"
edition = "2021"
publish = false

[dependencies]
async-channel = "*"
flate2 = "*"
anyhow = "*"
dialoguer = "*"
imap-proto = "*"
mailparse = "*"
serde = { version = "*", features = ["derive"] }
toml = "*"
