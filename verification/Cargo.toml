[package]
name = "pie_runtime"
version = "0.1.0"
edition = "2021"
publish = false

[dependencies]
flate2 = "1"
serde_json = "1"
hecs = "*"
glam = "*"
ctrlc = "3"
clap = { version = "4", features = ["derive"] }
bumpalo = "3"
gltf = "1"
image = { version = "0.25", default-features = false, features = ["png", "jpeg"] }
