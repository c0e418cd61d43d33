[package]
name = "lml"
version = "0.1.0"
edition = "2021"
publish = false

[dependencies]
clap = { version = "4", features = ["derive"] }
crossterm = "0.29"
ratatui = "0.30"
serde = { version = "1", features = ["derive"] }
tempfile = "3"
toml_edit = { version = "0.22", features = ["serde"] }
