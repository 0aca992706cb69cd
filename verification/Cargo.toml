[package]
name = "voxel"
version = "0.1.0"
edition = "2021"
publish = false

[dependencies]
ndarray = "0.15"
ultraviolet = { version = "0.9", features = ["int"] }
hecs = "0.10"
noise = "0.8"
rand = "0.8"
rand_xoshiro = "0.6"
turborand = "0.10"
derive_more = "0.99"
bytemuck = { version = "1", features = ["derive"] }
ahash = "0.8"
png = "0.17"
glob = "0.3"
guillotiere = "0.6"
mimalloc = "0.1"
