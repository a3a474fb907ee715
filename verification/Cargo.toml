[package]
name = "dirspace"
version = "0.1.0"
edition = "2021"
publish = false

[dependencies]
clap = { version = "4", features = ["derive"] }
cursive = "*"
hsv = "*"
lazy_static = "1"
regex = "1"
