[package]
name = "tuipo"
version = "0.1.0"
edition = "2021"

[dependencies]
anyhow = "1"
clap = { version = "4", default-features = false, features = ["derive", "std", "help", "usage", "error-context"] }
crossterm = { version = "0.29", default-features = false }
harper-core = { version = ">=0.50, <0.54", default-features = false }
portable-pty = "0.9"
serde = { version = "1", features = ["derive"] }
signal-hook = "0.3"
toml = "0.8"
vte = "0.15"
