[package]
name = "suc"
version = "0.1.0"
edition = "2021"
publish = false

[dependencies]
argon2 = "0.2"
rand = "0.8"
