[package]
name = "crazyradio2_bridge"
version = "0.1.0"
edition = "2021"
publish = false

[dependencies]
pyo3 = "=0.29.3"
serde_json = { version = "=1.0.151", features = ["float_roundtrip"] }
