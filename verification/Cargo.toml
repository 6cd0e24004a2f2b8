[package]
name = "raytracer"
version = "0.1.0"
edition = "2021"
publish = false

[dependencies]
clap = "2"
crossbeam = "0.8"
minifb = "*"
num_cpus = "1"
rand = "0.8"
