[package]
name = "tui-music"
version = "0.1.0"
edition = "2021"
publish = false

[dependencies]
anyhow = "1"
clap = { version = "4", features = ["derive"] }
crossterm = "0.28"
lofty = "0.22"
ratatui = "0.29"
rodio = "0.20"
rustfft = "6"
walkdir = "2"
