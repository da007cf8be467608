[package]
name = "orda"
version = "0.1.0"
edition = "2021"
publish = false

[dependencies]
cutile = "0.2.0"
cuda-core = "0.2.0"
