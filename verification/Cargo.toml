[package]
name = "quality_time"
version = "0.1.0"
edition = "2021"
publish = false

[dependencies]
clap = { version = "4", features = ["derive"] }
comfy-table = "6"
crossterm = "0.25"
eyre = "0.6"
git-repository = "*"
rust-code-analysis = "0.0.25"
serde = { version = "1", features = ["derive"] }
serde_cbor = "0.11"
serde_json = "1"
serde_yaml = "0.9"
toml = "0.7"
tui = "0.19"
