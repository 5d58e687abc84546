[package]
name = "ev3differ"
version = "0.1.0"
edition = "2021"
publish = false

[dependencies]
zip = "*"
chrono = "*"
git2 = "*"
clap = { version = "*", features = ["derive"] }
walkdir = "*"
