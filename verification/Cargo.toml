[package]
name = "groth16_verifier"
version = "0.1.0"
edition = "2021"
publish = false

[dependencies]
bls12_381 = "=0.8.0"
ff = "=0.13.1"
group = "=0.13.0"
pairing = "=0.23.0"
frame-support = "*"
frame-system = "*"
sp-std = "*"
parity-scale-codec = { version = "*", features = ["derive"] }
scale-info = { version = "*", features = ["derive"] }
