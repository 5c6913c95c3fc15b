[package]
name = "sse_heisenberg"
version = "0.1.0"
edition = "2021"
publish = false

[dependencies]
prng_mt = "*"
