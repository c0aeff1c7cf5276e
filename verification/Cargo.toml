[package]
name = "token_sweep"
version = "0.1.0"
edition = "2021"
publish = false

[dependencies]
bs58 = "0.5"
spl-token = { version = "6.0", features = ["no-entrypoint"] }
solana-program = "2.3"
anyhow = "1"
clap = { version = "4", features = ["derive"] }
