[package]
name = "num_ext"
version = "0.1.0"
edition = "2021"
publish = false

[dependencies]
polars = { version = "=0.45.1", default-features = false, features = ["lazy", "ndarray", "dtype-struct"] }
ndarray = { version = "=0.16.1", features = ["rayon"] }
faer = "=0.20.2"
faer-ext = { version = "=0.4.1", features = ["ndarray"] }
itertools = "=0.13.0"
rand = "0.8"
rayon = "1"
serde = { version = "1", features = ["derive"] }
