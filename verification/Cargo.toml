[package]
name = "bench_tools"
version = "0.1.0"
edition = "2021"
publish = false

[dependencies]
rand = "=0.8.8"
regex = "=1.13.1"
rusqlite = { version = "=0.32.1", features = ["bundled"] }
chrono = { version = "=0.4.45", features = ["serde"] }
clap = { version = "=4.6.7", features = ["derive"] }
crossterm = "=0.28.1"
ratatui = "=0.29.0"
hostname = "=0.4.2"
serde = { version = "=1.0.229", features = ["derive"] }
