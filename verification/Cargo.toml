[package]
name = "lidar_tiles"
version = "0.1.0"
edition = "2021"
publish = false

[dependencies]
las = { version = "*", features = ["laz"] }
morton-encoding = "*"
rayon = "*"
serde = { version = "*", features = ["derive"] }
serde_json = "*"
