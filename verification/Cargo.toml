[package]
name = "qr_core"
version = "0.1.0"
edition = "2021"
publish = false

[dependencies]
image = "*"
imageproc = "*"
rqrr = "*"
rxing = "*"
urlencoding = "*"
nalgebra = "*"
tract-onnx = "*"
anyhow = "*"
serde = { version = "*", features = ["derive"] }
