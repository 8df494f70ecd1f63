[package]
name = "letssurf"
version = "0.1.0"
edition = "2021"
publish = false

[dependencies]
url = "2"
hyper = { version = "0.14", features = ["full"] }
hyper-tls = "0.5"
tokio = { version = "1", features = ["full"] }
bytes = "1"
async-recursion = "1"
