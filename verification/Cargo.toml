[package]
name = "vde_segment"
version = "0.1.0"
edition = "2021"
publish = false

[dependencies]
bitvec = "*"

[dev-dependencies]
serde_json = "*"
