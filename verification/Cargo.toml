[package]
name = "quil"
version = "0.1.0"
edition = "2021"
publish = false

[dependencies]
rigetti-pyo3 = { version = "=0.3.6", features = ["complex"] }
pyo3 = "=0.20.3"
numpy = "=0.20.0"
strum = "=0.26.3"
