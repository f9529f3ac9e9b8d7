[package]
name = "rust_tracer"
version = "0.1.0"
edition = "2021"
publish = false

[dependencies]
getopts = "0.2"
ggez = "0.5"
nalgebra = { version = "0.18", features = ["mint"] }
rand = "0.7"
serde_yaml = "0.8"
