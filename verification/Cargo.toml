[package]
name = "pyval"
version = "0.2.0"
edition = "2021"
publish = false

[dependencies]
idna = "1"
unicode-normalization = "0.1"
pyo3 = "0.22"
thiserror = "1"
