[package]
name = "strike_wallet"
version = "0.1.0"
edition = "2021"
publish = false

[dependencies]
arrayref = "0.3"
bitvec = "1"
itertools = "0.10"
solana-program = "1.18"
spl-token = "4"
