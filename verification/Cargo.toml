[package]
name = "spartan_shift"
version = "0.1.0"
edition = "2021"
publish = false

[dependencies]
allocative = "0.3"
rayon = "1"
tracing = "0.1"
