[package]
name = "space_travel"
version = "0.1.0"
edition = "2021"
publish = false

[dependencies]
raylib = "=5.5.1"
image = "=0.25.10"
tobj = "*"
