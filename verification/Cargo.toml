[package]
name = "lookie"
version = "0.1.0"
edition = "2021"
publish = false

[dependencies]
image = "*"
rand = "0.8"
glam = "*"
pid = "4"
piston_window = "*"
piston2d-opengl_graphics = "*"
