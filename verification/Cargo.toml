[package]
name = "rustmux"
version = "0.1.0"
edition = "2021"
publish = false

[dependencies]
unicode-width = "=0.2.3"
clap = { version = "=4.6.7", features = ["derive"] }
crossterm = "=0.28.1"
serde = { version = "1", features = ["derive"] }
toml = "0.8"
