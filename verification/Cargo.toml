[package]
name = "grits"
version = "0.1.0"
edition = "2021"
publish = false

[dependencies]
regex = "1"
crossterm = "0.28"
clap = { version = "4", features = ["derive"] }
clap_complete = "4"
