[package]
name = "sparse_dot"
version = "0.1.0"
edition = "2021"
publish = false

[dependencies]
criterion = "0.5"
rand = "0.8"
simsimd = "*"
