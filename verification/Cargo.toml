[package]
name = "mandelbrot"
version = "0.1.0"
edition = "2021"
publish = false

[dependencies]
rug = "1"
num-complex = "0.4"
rayon = "1"
image = { version = "0.25", default-features = false, features = ["png"] }
minifb = "0.27"
wgpu = "23"
bytemuck = { version = "1", features = ["derive"] }
pollster = "0.3"
