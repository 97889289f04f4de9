[package]
name = "rustofluid"
version = "0.1.0"
edition = "2021"
publish = false

[dependencies]
clap = { version = "4", features = ["derive"] }
colorgrad = "0.6"
derive_builder = "0.12"
indicatif = "0.17"
itertools = "0.10"
nalgebra = "0.32"
plotters = "0.3"
rayon = "1"
simple-error = "0.3"
slog = "2"
slog-async = "2"
slog-term = "2"
