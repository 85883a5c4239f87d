[package]
name = "pysub_compiler"
version = "0.1.0"
edition = "2021"
publish = false

[dependencies]
wasm-encoder = "*"
sha2 = "0.10"
serde = { version = "1", features = ["derive"] }
serde_json = "1"
serde_yaml = "0.9"
bincode = "1"
chrono = "0.4"
hex = "0.4"
ed25519-dalek = { version = "2", features = ["rand_core"] }
rand = "0.8"
thiserror = "1"

[dev-dependencies]
wasmparser = "*"
