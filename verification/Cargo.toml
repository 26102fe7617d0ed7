[package]
name = "plutils"
version = "0.1.0"
edition = "2021"
publish = false

[dependencies]
polars = { version = "=0.55.2", default-features = false, features = ["dtype-array", "dtype-struct"] }
polars-compute = { version = "=0.55.2", default-features = false }
polars-arrow = { version = "=0.55.2", default-features = false }
pyo3 = { version = "=0.29.3" }
pyo3-polars = { version = "=0.28.0", features = ["derive"] }
