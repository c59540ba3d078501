[package]
name = "voxel_faces"
version = "0.1.0"
edition = "2021"
publish = false
