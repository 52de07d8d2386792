[package]
name = "study-time"
version = "0.1.0"
edition = "2021"
publish = false

[dependencies]
chrono = "0.4"
crossterm = "0.28"
dirs = "5"
is_elevated = "*"
libc = "0.2"
ratatui = "0.29"
serde = { version = "1", features = ["derive"] }
toml = "0.8"
