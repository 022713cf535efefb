[package]
name = "dbft_verifier"
version = "0.1.0"
edition = "2021"
publish = false

[dependencies]
alloy-primitives = { version = "=1.7.3", features = ["k256"] }
bls12_381 = { version = "=0.9.0", features = ["experimental"] }
p256 = { version = "=0.14.0", features = ["ecdsa"] }
sha2 = "0.10"
ripemd = "0.1"
serde = { version = "*", features = ["derive"] }
serde_json = "*"
hex = "*"
rustc-serialize = "=0.3.25"

[dev-dependencies]
k256 = { version = "=0.13.4", features = ["ecdsa"] }
alloy-consensus = "=2.5.0"
alloy-rlp = "=0.3.16"
