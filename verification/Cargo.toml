[package]
name = "simulator"
version = "0.1.0"
edition = "2021"
publish = false

[dependencies]
rand = "0.8"
probability = "*"
clap = { version = "4", features = ["derive"] }
csv = "1"
rayon = "1"
serde = { version = "1", features = ["derive"] }
