[package]
name = "rust_tracer"
version = "0.1.0"
edition = "2021"
publish = false

[dependencies]
rand = "0.8"
clap = "2"
image = "0.24"
serde = { version = "1", features = ["derive"] }
serde_yaml = "0.9"
rayon = "1"
indicatif = { version = "0.17", features = ["rayon"] }
nalgebra = { version = "0.32", features = ["serde-serialize"] }
