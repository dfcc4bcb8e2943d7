[package]
name = "symtern"
version = "0.3.0"
edition = "2021"
publish = false

[dependencies]
fnv = "1.0"
