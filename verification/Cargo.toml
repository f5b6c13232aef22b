[package]
name = "sweepkit"
version = "0.1.0"
edition = "2021"
publish = false

[dependencies]
bytesize = "*"
clap = { version = "*", features = ["derive"] }
colored = "*"
dialoguer = "*"
dirs = "*"
indicatif = "*"
walkdir = "*"
