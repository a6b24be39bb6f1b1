[package]
name = "restaurant_sim"
version = "0.1.0"
edition = "2021"
publish = false

[dependencies]
rand = "0.8"
rayon = "1"
statrs = "*"
serde = { version = "1", features = ["derive"] }
toml = "*"
log = "0.4"
env_logger = "*"
anyhow = "1"
plotters = { version = "0.3", default-features = false, features = ["bitmap_backend", "bitmap_encoder", "line_series", "surface_series"] }
nalgebra = "*"
lstsq = "*"
ndarray = "*"
ndarray-interp = "*"
