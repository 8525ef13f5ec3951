[package]
name = "folder_browser"
version = "0.1.0"
edition = "2021"
publish = false

[dependencies]
crossterm = "*"
ratatui = "*"
serde = { version = "*", features = ["derive"] }
