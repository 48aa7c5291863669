[package]
name = "monolith"
version = "0.1.0"
edition = "2021"
publish = false

[dependencies]
p3-field = "=0.8.0"
p3-mersenne-31 = "=0.8.0"
p3-symmetric = "=0.8.0"
sha3 = "=0.10.9"
memmap2 = "=0.9.12"
cty = "=0.2.2"
rand = "=0.9.5"

[dev-dependencies]
p3-monolith = "=0.8.0"
