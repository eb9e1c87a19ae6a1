[package]
name = "poll_rust_program"
version = "0.1.0"
edition = "2021"
publish = false

[dependencies]
borsh = "0.10"
solana-program = "1.17"
thiserror = "1"
