[package]
name = "pathtracer"
version = "0.1.0"
edition = "2021"

[dependencies]
rand = "0.9"
rayon = "1"
indicatif = { version = "0.17", features = ["rayon"] }
