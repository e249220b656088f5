[package]
name = "mandelbrot"
version = "0.1.0"
edition = "2021"
publish = false

[dependencies]
crossbeam = "0.8"
png = "0.17"
sysinfo = { version = "0.25", default-features = false }
