[package]
name = "txlsh"
version = "0.1.0"
edition = "2021"

[dependencies]
xxhash-rust = { version = "0.8", features = ["xxh3"] }
pyo3 = { version = "0.20", features = ["extension-module", "abi3-py37"] }
