[package]
name = "walk_through"
version = "0.1.0"
edition = "2021"
publish = false

[dependencies]
imbl = "*"
anyhow = "*"
lexopt = "*"
