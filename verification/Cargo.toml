[package]
name = "utang"
version = "0.1.0"
edition = "2021"
publish = false

[dependencies]
chrono = "0.4"
clap = { version = "4", features = ["derive"] }
dirs = "*"
num-format = "0.4"
rusqlite = { version = "*", features = ["bundled"] }
