[package]
name = "text_fingerprint"
version = "0.1.0"
edition = "2021"
publish = false

[dependencies]
blake2 = "0.10"
pyo3 = "*"
