[package]
name = "envctl"
version = "0.1.0"
edition = "2021"
publish = false

[dependencies]
age = "0.10"
anyhow = "1"
clap = { version = "4", features = ["derive"] }
crossterm = "0.28"
dirs = "5"
indexmap = { version = "2", features = ["serde"] }
ratatui = "0.29"
serde = { version = "1", features = ["derive"] }
similar = "2"
tempfile = "3"
toml = "0.8"
walkdir = "2"
