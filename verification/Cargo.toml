[package]
name = "bridge_engine"
version = "0.1.0"
edition = "2021"
publish = false

[dependencies]
parity-scale-codec = "*"
backoff = "*"
sp-trie = "*"
sp-core = "*"
sp-crypto-hashing = "*"
hash-db = "*"
trie-db = "*"
anyhow = "*"
structopt = "*"
