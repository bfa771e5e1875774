[package]
name = "prout"
version = "0.1.0"
edition = "2021"

[dev-dependencies]
chumsky = { version = "=0.9.3", default-features = false, features = ["std"] }
