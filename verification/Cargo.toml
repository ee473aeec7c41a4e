[package]
name = "pathtracer"
version = "0.1.0"
edition = "2021"
publish = false

[dependencies]
chrono = "*"
crossbeam = "*"
image = "*"
num = "*"
rand = "*"
rand_distr = "*"
rayon = "*"
ultraviolet = "*"
