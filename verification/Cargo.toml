[package]
name = "icli"
version = "0.1.0"
edition = "2021"
publish = false

[dependencies]
arboard = "*"
clap = { version = "*", features = ["derive"] }
crossterm = "0.28"
ratatui = "0.29"
