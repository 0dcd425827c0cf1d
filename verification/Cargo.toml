[package]
name = "universal_gui"
version = "0.1.0"
edition = "2021"
publish = false

[dependencies]
regex-syntax = "0.8"
serde = { version = "1", features = ["derive"] }
serde_json = "1"
anyhow = "1"
directories = "5"
thiserror = "1"

[dev-dependencies]
regex = "1"
