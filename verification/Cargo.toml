[package]
name = "h1conn"
version = "0.1.0"
edition = "2021"
publish = false

[dependencies]
futures = "=0.1.31"
tokio-core = "=0.1.18"
tokio-proto = "=0.1.1"
url = "1"
