[package]
name = "rasterizer"
version = "0.1.0"
edition = "2021"
publish = false

[dependencies]
csv = "1"
minifb = "*"
serde = { version = "1", features = ["derive"] }
