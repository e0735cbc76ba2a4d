[package]
name = "rcore_kernel"
version = "0.1.0"
edition = "2021"
publish = false

[dependencies]
spin = "=0.7.2"
lazy_static = "=1.5.1"
