[package]
name = "tornado_svm"
version = "0.1.0"
edition = "2021"
publish = false

[dependencies]
sha3 = "0.10"
ark-bn254 = "0.4"
ark-ec = "0.4"
ark-ff = "0.4"
ark-groth16 = "0.4"
ark-serialize = "0.4"
solana-program = "2"
