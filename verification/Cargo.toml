[package]
name = "encoder_lib"
version = "0.1.0"
edition = "2021"
publish = false

[dependencies]
anyhow = "1"
glob = "0.3"
image = { version = "0.24", default-features = false, features = ["bmp", "png"] }
indicatif = { version = "0.17", features = ["rayon"] }
rayon = "1"
