[package]
name = "engineio"
version = "0.1.0"
edition = "2021"
publish = false

[dependencies]
futures = "0.1"
rand = "*"
rustc-serialize = "*"
tokio-core = "0.1"
url = "*"
ws = "*"
