[package]
name = "nebula_nomad"
version = "0.1.0"
edition = "2021"
publish = false

[dependencies]
arrayvec = "0.7"
soroban-sdk = "22"
