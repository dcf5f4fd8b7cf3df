[package]
name = "chain_store"
version = "0.1.0"
edition = "2021"
publish = false

[dependencies]
sled = "*"
data-pile = "*"
rand_core = "*"

[dev-dependencies]
tempfile = "*"
