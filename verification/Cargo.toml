[package]
name = "scapy_core"
version = "0.1.0"
edition = "2021"
publish = false

[dependencies]
pyo3 = { version = "0.23", features = ["extension-module", "abi3-py38"] }
