[package]
name = "tmux_fzy"
version = "0.1.0"
edition = "2021"
publish = false

[dependencies]
anyhow = "*"
clap = { version = "*", features = ["derive"] }
crossterm = "*"
fuzzy-matcher = "*"
jwalk = "*"
ratatui = "*"
thiserror = "*"
