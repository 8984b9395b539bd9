[package]
name = "raytracer"
version = "0.1.0"
edition = "2021"
publish = false

[dependencies]
clap = { version = "4", features = ["derive"] }
derivative = "2"
env_logger = "0.11"
hhmmss = "0.1"
log = "0.4"
num-traits = "0.2"
rand = "0.9"
rayon = "1"
