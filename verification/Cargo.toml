[package]
name = "ke2daira"
version = "0.1.0"
edition = "2021"
publish = false

[dependencies]
lindera = { version = "0.21", features = ["ipadic"] }
