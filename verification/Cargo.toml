[package]
name = "station_heatmap"
version = "0.1.0"
edition = "2021"
publish = false

[dependencies]
fast-heatmap = "*"
geo = "0.28"
image = { version = "0.24", default-features = false, features = ["png"] }
rayon = "1"
