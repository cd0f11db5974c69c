[package]
name = "regcode"
version = "0.1.0"
edition = "2021"
publish = false

[dependencies]
base64 = "0.13"
chrono = "0.4"
hex = "0.4"
rand = "0.8"
smcrypto = "0.3"
clap = { version = "3", features = ["derive"] }
