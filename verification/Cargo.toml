[package]
name = "delta_kernel"
version = "0.1.0"
edition = "2021"
publish = false

[dependencies]
arrow-array = "*"
arrow-schema = "*"
parquet = { version = "*", default-features = false, features = ["arrow"] }
serde_json = "*"
tracing = "*"
url = "*"
