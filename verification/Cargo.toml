[package]
name = "events"
version = "0.1.0"
edition = "2021"
publish = false

[dependencies]
anyhow = "1"
wasmtime = { version = "=36.0.19", default-features = false, features = ["runtime", "cranelift", "std"] }
wasi-common = { version = "=36.0.19", default-features = false, features = ["sync", "wasmtime"] }
