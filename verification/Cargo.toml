[package]
name = "tview"
version = "0.1.0"
edition = "2021"
publish = false

[dependencies]
anyhow = "1"
clap = { version = "4", features = ["derive"] }
crossterm = "*"
csv = "1"
encoding_rs = "0.8"
ratatui = "*"
regex = "1"
serde = { version = "1", features = ["derive"] }
serde_json = { version = "1", features = ["preserve_order"] }
thiserror = "*"
unicode-width = "0.2"
yaml_serde = "*"
