[package]
name = "neuropong"
version = "0.1.0"
edition = "2021"
publish = false

[dependencies]
rand = "0.9"
bincode = "1"
serde = { version = "1", features = ["derive"] }
macroquad = "0.4"
