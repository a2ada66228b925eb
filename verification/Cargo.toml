[package]
name = "toaster"
version = "0.1.0"
edition = "2021"
publish = false

[dependencies]
chrono = "=0.4.45"
threadpool = "=1.8.1"
toml = "=1.1.6"
