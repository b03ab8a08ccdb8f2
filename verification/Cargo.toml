[package]
name = "oxideav_fbx"
version = "0.1.0"
edition = "2021"
publish = false

[dependencies]
compcol = "*"
oxideav-mesh3d = "*"
serde_json = "*"
