[package]
name = "vnote"
version = "0.1.0"
edition = "2021"
publish = false

[dependencies]
levenshtein = "*"
regex = "*"
uuid = { version = "*", features = ["v4"] }
chrono = "*"
clap = "*"
colored = "*"
dirs = "*"
