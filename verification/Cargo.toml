[package]
name = "picocadrs"
version = "0.1.0"
edition = "2021"
publish = false

[dependencies]
rlua = "=0.20.1"
svg = "=0.18.0"
serde = { version = "=1.0.229", features = ["derive"] }
measurements = "=0.11.1"
directories = "=6.0.0"
