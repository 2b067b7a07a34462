[package]
name = "danger_maze"
version = "0.1.0"
edition = "2021"
publish = false

[dependencies]
rand = "0.8"

[dev-dependencies]
serde_json = "1"
