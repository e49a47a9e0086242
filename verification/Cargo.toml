[package]
name = "chainlab"
version = "0.1.0"
edition = "2021"
publish = false

[dependencies]
sha2 = "0.10"
rand = "0.8"
chrono = "0.4"
borsh = { version = "1", features = ["derive"] }
solana-program = "2"
anchor-lang = "0.31"
bitcoin = "0.32"
secp256k1 = { version = "0.29", features = ["rand-std"] }
ring = "0.17"
