[package]
name = "docker_records"
version = "0.1.0"
edition = "2021"
publish = false

[dependencies]
bollard = "=0.19.4"
color-eyre = "=0.6.5"
serde = { version = "=1.0.229", features = ["derive"] }
