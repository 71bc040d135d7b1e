[package]
name = "selopt"
version = "0.1.0"
edition = "2021"
publish = false

[dependencies]
tiny-keccak = { version = "*", features = ["keccak"] }
clap = { version = "*", features = ["derive"] }
crossbeam-channel = "*"
ethers = { version = "*", default-features = false }
eyre = "*"
indicatif = "*"
ptree = "*"
serde_json = "*"
