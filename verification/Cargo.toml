[package]
name = "cashtrack"
version = "0.1.0"
edition = "2021"
publish = false

[dependencies]
anyhow = "1"
chrono = "0.4"
clap = { version = "4", features = ["derive"] }
csv = "1"
etcetera = "*"
ratatui = "0.30"
rusqlite = { version = "*", features = ["bundled"] }
rust_decimal = "1"
serde = { version = "1", features = ["derive"] }
serde_yaml = "0.9"
