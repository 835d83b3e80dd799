[package]
name = "notify-history"
version = "0.1.0"
edition = "2021"
publish = false

[dependencies]
chrono = "0.4"
clap = { version = "4", features = ["derive"] }
clap_complete = "4"
crossterm = "0.28"
ctrlc = "3"
dirs = "5"
fuzzy-matcher = "0.3"
ratatui = "0.29"
serde = { version = "1", features = ["derive"] }
toml = "0.8"
unicode-width = "0.2"
