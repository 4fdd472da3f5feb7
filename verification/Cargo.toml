[package]
name = "rdm4lib"
version = "0.1.0"
edition = "2021"
publish = false

[dependencies]
bytes = "=1.12.1"
gltf = { version = "=1.4.1", default-features = false, features = ["names"] }
half = "=2.7.1"
log = "=0.4.34"
nalgebra = "=0.35.0"
