[package]
name = "kernel_core"
version = "0.1.0"
edition = "2021"
publish = false

[dependencies]
heapless = "0.8"
lazy_static = { version = "1.4", features = ["spin_no_std"] }
