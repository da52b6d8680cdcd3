[package]
name = "fero"
version = "0.1.0"
edition = "2021"
publish = false

[dependencies]
num = "0.1"
pretty-good = "=0.2.2"
