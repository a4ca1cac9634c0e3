[package]
name = "raytrace"
version = "0.1.0"
edition = "2021"
publish = false

[dependencies]
cgmath = "=0.18.0"
image = "=0.25.10"
indicatif = "=0.18.6"
rand = { version = "=0.8.8", features = ["small_rng"] }
