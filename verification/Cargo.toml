[package]
name = "seeborg"
version = "0.1.0"
edition = "2021"
publish = false

[dependencies]
onig = { version = "=6.5.3", default-features = false }
rand = { version = "=0.8.8", features = ["small_rng"] }
serde = { version = "=1.0.229", features = ["derive"] }
serde_json = "=1.0.151"
serde_yaml = "=0.9.34"
