[package]
name = "boa_string"
version = "0.1.0"
edition = "2021"
publish = false

[dependencies]
fast-float = "0.2"
