[package]
name = "icosphere"
version = "0.1.0"
edition = "2021"
publish = false

[dependencies]
cgmath = "0.17"
fltk = "1"
gl = "0.14"
image = "0.24"
rand = "0.8"
