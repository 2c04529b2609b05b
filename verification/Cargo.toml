[package]
name = "binius_circuits"
version = "0.1.0"
edition = "2021"
publish = false

[dependencies]
rand = "0.8"
tiny-keccak = { version = "2.0.2", features = ["keccak"] }
