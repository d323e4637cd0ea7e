[package]
name = "container_conf"
version = "0.1.0"
edition = "2021"
publish = false

[dependencies]
nom = { version = "6", default-features = false, features = ["std"] }
