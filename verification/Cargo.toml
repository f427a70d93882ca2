[package]
name = "pyre"
version = "0.1.0"
edition = "2021"
publish = false

[dependencies]
anyhow = "1"
clap = { version = "4", features = ["derive"] }
exr = "1"
glam = "0.30"
gltf = "1"
image = { version = "0.25", default-features = false, features = ["png", "hdr"] }
pixels = "0.15"
rand = "0.9"
rand_xoshiro = "0.7"
rayon = "1"
smallvec = "1"
thiserror = "2"
tracing = "0.1"
tracing-subscriber = { version = "0.3", features = ["env-filter"] }
winit = "0.30"
