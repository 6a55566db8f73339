[package]
name = "rusty_raid"
version = "0.1.0"
edition = "2021"
publish = false

[dependencies]
ggez = "0.5"
rand = { version = "0.7", features = ["small_rng"] }
