[package]
name = "steam_roulette"
version = "0.1.0"
edition = "2021"
publish = false

[dependencies]
clap = { version = "4", features = ["derive"] }
dirs = "*"
rand = "0.8"
which = "*"
