[package]
name = "gomoku"
version = "0.1.0"
edition = "2021"
publish = false

[dependencies]
rand = "0.9"
fxhash = "0.2"
clap = { version = "4", features = ["derive"] }
rayon = "1"
