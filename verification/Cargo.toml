[package]
name = "brio"
version = "0.1.0"
edition = "2021"
publish = false

[dependencies]
async-std = "1"
futures = "0.3"
httparse = "1"
mime = "0.3"
serde_json = "1"
