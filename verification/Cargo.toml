[package]
name = "hexsaly"
version = "0.1.0"
edition = "2021"
publish = false

[dependencies]
clap = { version = "4", features = ["derive"] }
colored = "2"
crossterm = "*"
inquire = "*"
regex = "1"
serde_json = "1"
