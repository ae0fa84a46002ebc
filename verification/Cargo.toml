[package]
name = "fast_umap"
version = "0.1.0"
edition = "2021"
publish = false

[dependencies]
burn = { version = "0.16", default-features = false, features = ["std"] }
hsl = "0.1"
num = "0.4"
plotters = { version = "0.3", default-features = false, features = ["bitmap_backend", "bitmap_encoder", "line_series", "ttf"] }
