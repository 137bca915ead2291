[package]
name = "rgsearch"
version = "0.1.0"
edition = "2021"
publish = false

[dependencies]
grep-regex = "*"
grep-matcher = "*"
ignore = "*"
