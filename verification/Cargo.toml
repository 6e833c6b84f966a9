[package]
name = "file_finder"
version = "0.1.0"
edition = "2021"
publish = false

[dependencies]
regex = "*"
chrono = "*"
clap = { version = "*", features = ["derive"] }
