[package]
name = "crt_shim"
version = "0.1.0"
edition = "2021"
publish = false

[dependencies]
crossbeam = "=0.8.5"
libm = "0.2"
printf-compat = "0.1"
serde = { version = "1", features = ["derive"] }
serde_json = "1"
