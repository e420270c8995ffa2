[package]
name = "mandelbrot"
version = "0.1.0"
edition = "2021"
publish = false

[dependencies]
base64 = "*"
crossbeam = "*"
image = { version = "*", default-features = false, features = ["png"] }
iron = "0.6"
mime = "0.2"
num = "*"
router = "0.6"
urlencoded = "0.6"
