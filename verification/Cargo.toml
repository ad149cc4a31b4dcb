[package]
name = "voxel_palette"
version = "0.1.0"
edition = "2021"
publish = false

[dependencies]
image = "*"
kolor = "*"
raylib = "*"
