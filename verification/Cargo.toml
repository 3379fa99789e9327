[package]
name = "grit"
version = "0.3.0"
edition = "2021"
publish = false

[dependencies]
anyhow = "1"
clap = { version = "4", features = ["derive"] }
etcetera = "0.10"
jiff = "0.2"
owo-colors = "4"
serde = { version = "1", features = ["derive"] }
serde_json = "1"
tempfile = "3"
terminal_size = "0.4"
thiserror = "2"
toml = "0.9"
unicode-width = "0.2"
