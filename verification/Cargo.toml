[package]
name = "rust_rtc"
version = "0.1.0"
edition = "2021"
publish = false

[dependencies]
glam = "*"
clap = { version = "*", features = ["derive"] }
anyhow = "*"
indicatif = "*"
