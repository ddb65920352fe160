[package]
name = "emergence"
version = "0.1.0"
edition = "2021"
publish = false

[dependencies]
rand = "0.8"
gif = "*"
minifb = "*"
ansi_term = "*"
