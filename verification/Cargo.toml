[package]
name = "private_currency"
version = "0.1.0"
edition = "2021"
publish = false

[dependencies]
bulletproofs = "=5.0.0"
byteorder = "=1.5.0"
curve25519-dalek = { version = "=4.1.3", features = ["rand_core"] }
exonum = "0.9"
exonum_sodiumoxide = "*"
failure = "=0.1.8"
merlin = "=3.0.0"
rand = "=0.8.8"
serde = { version = "=1.0.229", features = ["derive"] }
