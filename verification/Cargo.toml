[package]
name = "e3wm"
version = "0.1.0"
edition = "2021"
publish = false

[dependencies]
xcb = "1"
pyo3 = "0.20"
xkbcommon = "0.5"
