[package]
name = "pgen_rs"
version = "0.1.0"
edition = "2021"
publish = false

[dependencies]
csv = "1"
evalexpr = "11"
