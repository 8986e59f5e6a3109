[package]
name = "vexray"
version = "0.1.0"
edition = "2021"
publish = false

[dependencies]
glam = "*"
log = "*"
env_logger = { version = "*", default-features = false }
image = { version = "*", default-features = false, features = ["png"] }
