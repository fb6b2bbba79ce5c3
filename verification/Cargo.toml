[package]
name = "schafkopf"
version = "0.1.0"
edition = "2021"

[dependencies]
rand = "0.8"

[dev-dependencies]
hamming = "0.1"
