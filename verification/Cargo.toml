[package]
name = "nopki_dilithium"
version = "0.1.0"
edition = "2021"
publish = false

[dependencies]
pqc_dilithium = "*"
rand = "*"
