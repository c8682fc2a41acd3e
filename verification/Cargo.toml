[package]
name = "cloud"
version = "0.1.0"
edition = "2021"
publish = false

[dependencies]
wasmer = "=4.4.0"
wasmer-cache = "=4.4.0"
serde_json = "*"
rmp-serde = "*"
