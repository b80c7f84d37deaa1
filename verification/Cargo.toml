[package]
name = "calendar"
version = "0.1.0"
edition = "2021"
publish = false

[dependencies]
chrono = "0.4"
chrono-tz = "0.10"
clap = { version = "4", features = ["derive"] }
crossterm = "0.28"
rand = "0.8"
ratatui = "0.29"
rust_xlsxwriter = "*"
serde = { version = "1", features = ["derive"] }
toml = "0.8"
