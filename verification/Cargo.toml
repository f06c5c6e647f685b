[package]
name = "veil"
version = "0.1.0"
edition = "2021"
publish = false

[dependencies]
soroban-sdk = "*"
zkhash = "*"
ark-bn254 = "*"
ark-ff = "*"
ark-groth16 = "*"
ark-serialize = "*"
ark-snark = "*"
ark-std = "*"
num-bigint = "*"
hex = "*"
serde_json = "*"
anyhow = "*"

[dev-dependencies]
soroban-sdk = { version = "*", features = ["testutils"] }
