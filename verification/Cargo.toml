[package]
name = "voxel_world"
version = "0.1.0"
edition = "2021"
publish = false

[dependencies]
arrayvec = "0.7"
dashmap = "5"
glium = "0.32"
image = "0.24"
noise = "0.7"
tokio = { version = "1", features = ["rt", "sync", "time", "io-std", "io-util"] }
