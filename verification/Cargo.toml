[package]
name = "raytracer"
version = "0.1.0"
edition = "2021"
publish = false

[dependencies]
crossbeam = "0.7"
image = { version = "0.23", default-features = false, features = ["jpeg", "png"] }
lazy_static = "1"
rand = { version = "0.7", features = ["small_rng"] }
