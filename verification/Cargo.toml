[package]
name = "td"
version = "0.1.0"
edition = "2021"
publish = false

[dependencies]
anyhow = "1"
chrono = "0.4"
clap = { version = "4", features = ["derive"] }
clap_complete = "4"
colored = "2"
dirs = "5"
regex = "1"
serde = { version = "1", features = ["derive"] }
toml = "0.8"
