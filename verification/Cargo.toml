[package]
name = "rusty_puzzle_cube"
version = "0.1.0"
edition = "2021"
publish = false

[dependencies]
rand = "0.9"
colored = "*"
anyhow = "1"
