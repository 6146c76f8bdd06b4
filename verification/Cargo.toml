[package]
name = "iii_observability"
version = "0.1.0"
edition = "2021"
publish = false

[dependencies]
crackle-runtime = "*"
