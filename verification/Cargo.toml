[package]
name = "zkp-circuit"
version = "0.1.0"
edition = "2021"
publish = false

[dependencies]
bulletproofs = { version = "4.0.0", default-features = false, features = ["std", "yoloproofs"] }
curve25519-dalek-ng = "4"
merlin = "3"
rand = "0.8"
blake3 = { version = "1", features = ["pure"] }
sha2 = "0.10"
hex = "0.4"
base64 = "0.13"
serde = { version = "1", features = ["derive"] }
serde_json = "1"
jni = "0.21"
wasm-bindgen = "0.2"
