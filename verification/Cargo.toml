[package]
name = "cashflow"
version = "0.1.0"
edition = "2021"
publish = false

[dependencies]
anyhow = "*"
chrono = "*"
crossterm = "*"
csv = "*"
dirs = "*"
ratatui = "*"
serde = { version = "*", features = ["derive"] }
