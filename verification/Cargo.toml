[package]
name = "plasma_chamber"
version = "0.1.0"
edition = "2021"
publish = false

[dependencies]
rust-crypto = "*"
tiny-keccak = "1"
hex = "*"
