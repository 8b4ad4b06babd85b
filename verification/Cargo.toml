[package]
name = "flexml"
version = "0.1.0"
edition = "2021"
publish = false

[dependencies]
heck = "*"
once_cell = "*"
