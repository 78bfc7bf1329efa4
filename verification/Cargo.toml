[package]
name = "rnr"
version = "0.1.0"
edition = "2021"
publish = false

[dependencies]
regex = "=1.13.1"
clap = { version = "=4.6.7", features = ["derive"] }
