[package]
name = "octahack"
version = "0.1.0"
edition = "2021"
publish = false

[dependencies]
fixed = "1"
rand = { version = "=0.7.3", features = ["small_rng"] }
nom-midi = "=0.5.1"
rodio = "=0.11.0"
