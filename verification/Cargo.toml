[package]
name = "amethyst_voxel"
version = "0.1.0"
edition = "2021"
publish = false

[dependencies]
byteorder = "1"
nalgebra-glm = "*"
rayon = "1"
crossbeam = "0.8"
serde = { version = "1", features = ["derive"] }
smallvec = "1"
lazy_static = "1"
