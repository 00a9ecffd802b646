[package]
name = "mock_runtime"
version = "0.1.0"
edition = "2021"
publish = false

[dependencies]
fabric-support = "*"
fabric-system = "*"
tet-core = "*"
tet-io = "*"
tp-runtime = "*"
