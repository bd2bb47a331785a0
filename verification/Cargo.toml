[package]
name = "common"
version = "0.1.0"
edition = "2021"
publish = false

[dependencies]
base64 = "*"
nalgebra = "*"
prost-build = "*"
serde = { version = "*", features = ["derive"] }
serde_json = "*"
thrift = "*"
walkdir = "*"

[dev-dependencies]
regex = "*"
