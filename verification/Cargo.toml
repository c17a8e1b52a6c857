[package]
name = "file_toolkit"
version = "0.1.0"
edition = "2021"
publish = false

[dependencies]
serde = { version = "=1.0.229", features = ["derive"] }
serde_json = "=1.0.154"
rayon = "=1.12.0"
num_cpus = "=1.17.0"
