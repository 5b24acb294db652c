[package]
name = "slice_string"
version = "0.1.0"
edition = "2021"
publish = false

[dependencies]
tinyvec = "*"
ufmt-write = "*"
