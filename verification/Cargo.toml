[package]
name = "ttt"
version = "0.1.0"
edition = "2021"
publish = false

[dependencies]
chrono = "0.4"
rusqlite = "*"
dirs = "*"
anyhow = "1"
thiserror = "*"
slog = "2"
sloggers = "2"
