[package]
name = "cdc_chunker"
version = "0.1.0"
edition = "2021"
publish = false

[dependencies]
fastcdc = "3"
rand = "0.8"
rand_distr = "0.4"
serde = { version = "1", features = ["derive"] }
