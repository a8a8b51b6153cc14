[package]
name = "cpython_rust_modules"
version = "0.1.0"
edition = "2021"
publish = false

[dependencies]
base64 = "0.22"
shlex = "1.3"
