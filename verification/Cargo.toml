[package]
name = "git_wt"
version = "0.1.0"
edition = "2021"
publish = false

[dependencies]
anyhow = "1"
chrono = "0.4"
clap = { version = "4", features = ["derive"] }
colored = "2"
dialoguer = "0.11"
dirs = "5"
serde = { version = "1", features = ["derive"] }
toml = "0.8"
walkdir = "2"
