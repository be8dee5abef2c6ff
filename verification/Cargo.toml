[package]
name = "secret_shares"
version = "0.1.0"
edition = "2021"
publish = false

[dependencies]
sss-rs = "*"
clap = { version = "4", features = ["derive"] }
