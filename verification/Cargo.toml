[package]
name = "braille_art"
version = "0.1.0"
edition = "2021"
publish = false

[dependencies]
image = "*"
