[package]
name = "extended_einsum"
version = "0.1.0"
edition = "2021"
publish = false

[dependencies]
syn = "=1.0.109"
itertools = "=0.10.5"
proc-macro2 = "=1.0.107"

[dev-dependencies]
ndarray = "=0.15.6"
