[package]
name = "extend_sig"
version = "0.1.0"
edition = "2021"
publish = false

[dependencies]
num-bigint = "0.4"
num-traits = "0.2"
num-integer = "0.1"
num-prime = "0.4"
merlin = "=2.0.1"
curve25519-dalek = { version = "=2.1.3", features = ["serde"] }
sha2 = "=0.8.2"
rand_core = { version = "=0.5.1", features = ["getrandom"] }
serde = { version = "1", features = ["derive"] }
bincode = "=1.3.3"

[dev-dependencies]
rand = "=0.7.3"
