[package]
name = "r9"
version = "0.1.0"
edition = "2021"
publish = false

[dependencies]
target-lexicon = "0.12"
clap = { version = "4", features = ["derive"] }
serde = { version = "1", features = ["derive"] }
toml = "0.8"
