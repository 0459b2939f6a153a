[package]
name = "display"
version = "1.21.0"
edition = "2021"
publish = false

[dependencies]
bresenham = "*"
btoi = "*"
