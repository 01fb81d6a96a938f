[package]
name = "abac_engine"
version = "0.1.0"
edition = "2021"
publish = false

[dependencies]
schnorrkel = "*"
sp-core-hashing = "*"

[dev-dependencies]
parity-scale-codec = "*"
