[package]
name = "cppheader"
version = "0.1.0"
edition = "2021"
publish = false

[dependencies]
nom = "3"
error-chain = { version = "0.12", default-features = false }
