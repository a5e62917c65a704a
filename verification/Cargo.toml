[package]
name = "ourealis_core"
version = "0.1.0"
edition = "2021"
publish = false

[dependencies]
rand = "0.10"
rand_chacha = "0.10"
twox-hash = "2"
serde = { version = "1", features = ["derive"] }
glam = "0.30"
