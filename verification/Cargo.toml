[package]
name = "dicemix"
version = "0.1.0"
edition = "2021"
publish = false

[dependencies]
secp256k1 = "=0.33.1"
blake2 = "=0.11.0"
rand = { version = "=0.10.3", default-features = false, features = ["chacha"] }
bit-set = "=0.11.1"
vec_map = "=0.8.2"
bytes = "=1.12.1"
futures = "=0.3.34"

[dev-dependencies]
bincode = "=1.3.3"
