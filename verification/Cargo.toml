[package]
name = "folds"
version = "0.1.0"
edition = "2021"
publish = false

[dependencies]
rayon = "1"
rand = { version = "0.8", features = ["small_rng"] }
tokio = { version = "1", features = ["rt", "rt-multi-thread"] }
futures = "0.3"
