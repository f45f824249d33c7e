[package]
name = "file_search"
version = "0.1.0"
edition = "2021"
publish = false

[dependencies]
anyhow = "1"
clap = { version = "4", features = ["derive"] }
crossterm = "0.28"
fuzzy-matcher = "0.3"
ignore = "0.4"
ratatui = "0.29"
tokio = { version = "1", features = ["full"] }
