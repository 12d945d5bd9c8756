[package]
name = "mhrise_save_converter"
version = "0.1.0"
edition = "2021"
publish = false

[dependencies]
murmur3 = "0.5"
flate2 = "1"
num-bigint = "0.4"
num-integer = "0.1"
anyhow = "1"
thiserror = "2"
clap = { version = "4", features = ["derive"] }
