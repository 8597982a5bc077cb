[package]
name = "iroh-bitswap"
version = "0.1.0"
edition = "2021"
publish = false

[dependencies]
ahash = "0.8"
anyhow = "1"
bytes = "1"
cid = "0.11"
multihash = "0.19"
multihash-codetable = { version = "*", features = ["sha2", "sha3", "blake2b", "blake2s", "blake3"] }
num_enum = "0.5"
once_cell = "1"
prost = "0.11"
prost-types = "0.11"
