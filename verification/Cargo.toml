[package]
name = "runtime_tracing"
version = "0.1.0"
edition = "2021"
publish = false

[dependencies]
zeekstd = "=0.6.2"
