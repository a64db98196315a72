[package]
name = "pigeon"
version = "0.1.0"
edition = "2021"
publish = false

[dependencies]
sled = "*"
actix-web = "4"
env_logger = "*"
tokio = { version = "1", features = ["time", "rt"] }
