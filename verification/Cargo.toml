[package]
name = "starky_bls12_381"
version = "0.1.0"
edition = "2021"
publish = false

[dependencies]
plonky2 = "1.1.0"
starky = "1.1.0"
ark-bls12-381 = "0.4.0"
ark-ff = "0.4.2"
itertools = "0.12.1"

[dev-dependencies]
ark-std = "0.4.0"
rand = "0.8.5"
num-traits = "0.2.19"
