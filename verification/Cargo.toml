[package]
name = "svgps"
version = "0.1.0"
edition = "2021"
publish = false

[dependencies]
kurbo = "*"
usvg = "*"
clap = { version = "*", features = ["derive"] }
