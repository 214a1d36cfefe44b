[package]
name = "den"
version = "0.1.0"
edition = "2021"
publish = false

[dependencies]
anyhow = "1"
clap = { version = "4", features = ["derive"] }
crossterm = "*"
git2 = { version = "*", default-features = false }
notify-debouncer-mini = "*"
pulldown-cmark = "*"
ratatui = "*"
serde = { version = "1", features = ["derive"] }
toml = "*"
walkdir = "2"
