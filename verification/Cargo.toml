[package]
name = "matrix_cascade"
version = "0.1.0"
edition = "2021"

[dependencies]
rand = "0.8"
tui = { version = "0.19", default-features = false }
