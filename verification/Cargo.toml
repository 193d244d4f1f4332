[package]
name = "monopoly"
version = "0.1.0"
edition = "2021"
publish = false

[dependencies]
sha3 = "0.10"
solana-program = "2"
thiserror = "1"
num-derive = "0.4"
num-traits = "0.2"
