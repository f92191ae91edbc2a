[package]
name = "loc_share"
version = "0.1.0"
edition = "2021"
publish = false

[dependencies]
openssl = "0.10"
hex = "0.4"
rand = "0.8"
dirs = "5"
clap = { version = "4", features = ["derive"] }
