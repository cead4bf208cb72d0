[package]
name = "diffview"
version = "0.1.0"
edition = "2021"
publish = false

[dependencies]
anyhow = "1"
clap = { version = "4", features = ["derive"] }
crossterm = "0.28"
ratatui = "0.29"
similar = "2"
syntect = { version = "5", default-features = false, features = ["default-fancy"] }
