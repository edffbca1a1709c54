[package]
name = "deb_installer"
version = "0.1.0"
edition = "2021"
publish = false

[dependencies]
anyhow = "1"
async-channel = "2"
chrono = { version = "0.4", features = ["serde"] }
dirs = "*"
rust-i18n = "3"
serde = { version = "1", features = ["derive"] }
serde_json = "1"
tar = "0.4"
tempfile = "3"
