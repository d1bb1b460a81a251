[package]
name = "newton_fractal"
version = "0.1.0"
edition = "2021"
publish = false

[dependencies]
num = "*"
pyo3 = { version = "*", features = ["num-complex"] }
