[package]
name = "grid_visibility"
version = "0.1.0"
edition = "2021"
publish = false

[dependencies]
image = "0.24"
imageproc = "0.23"
rayon = "1"
serde_json = "1"
