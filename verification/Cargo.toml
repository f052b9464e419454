[package]
name = "stacks_codec"
version = "0.1.0"
edition = "2021"
publish = false

[dependencies]
sha2 = "*"
secp256k1 = { version = "*", features = ["recovery"] }
libsecp256k1 = "*"
ripemd = "*"
rand = "*"
