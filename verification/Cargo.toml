[package]
name = "notesheet"
version = "0.1.0"
edition = "2021"
publish = false

[dependencies]
rand = "0.7"
piston_window = "*"
piston2d-graphics = "*"
gfx_device_gl = "*"
find_folder = "*"
