[package]
name = "ministark"
version = "0.1.0"
edition = "2021"
publish = false

[dependencies]
sha2 = "=0.10.9"
ark-ff = "=0.4.2"
ark-poly = "=0.4.2"
ark-serialize = { version = "=0.4.2", features = ["derive"] }
