[package]
name = "stslayer"
version = "0.1.0"
edition = "2021"
publish = false

[dependencies]
anyhow = "*"
clap = { version = "*", features = ["derive"] }
dirs = "*"
serde = { version = "*", features = ["derive"] }
serde_json = "*"
signal-hook = "*"
tokio = { version = "*", features = ["full"] }
toml = "*"
