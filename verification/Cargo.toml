[package]
name = "vertex_puzzle"
version = "0.1.0"
edition = "2021"
publish = false

[dependencies]
delaunator = "1"
kmeans_colors = { version = "*", default-features = false, features = ["palette_color"] }
palette = "*"
rand = "0.9"
serde = { version = "1", features = ["derive"] }
serde_yaml = "0.9"
reqwest = { version = "0.12", features = ["blocking"] }
chrono = "0.4"
