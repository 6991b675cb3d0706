[package]
name = "linez"
version = "0.1.0"
edition = "2021"
publish = false

[dependencies]
rand = "0.8"
clap = { version = "4", features = ["derive"] }
image = "0.25"
minifb = "*"

[dev-dependencies]
bresenham = "0.1"
