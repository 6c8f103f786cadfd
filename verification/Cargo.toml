[package]
name = "tx_engine"
version = "0.1.0"
edition = "2021"

[dependencies]
chrono = "*"
csv = "*"
rust_decimal = "*"
