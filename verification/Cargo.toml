[package]
name = "axis_parser"
version = "0.1.0"
edition = "2021"
publish = false

[dependencies]
pest = "2"
pyo3 = "=0.30.1"
