[package]
name = "raytracer"
version = "0.1.0"
edition = "2021"
publish = false

[dependencies]
cgmath = "=0.18.0"
clap = { version = "=3.2.25", features = ["derive"] }
indicatif = { version = "=0.17.11", features = ["rayon"] }
itertools = "=0.10.5"
png = "=0.17.16"
rand = { version = "=0.8.8", features = ["small_rng"] }
rayon = "=1.12.0"
