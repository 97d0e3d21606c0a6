[package]
name = "local_robot_map"
version = "0.1.0"
edition = "2021"
publish = false

[dependencies]
geo = "*"
geo-rasterize = "*"
image = "*"
ndarray = "*"
num = "*"
