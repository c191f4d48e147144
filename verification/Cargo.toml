[package]
name = "proof_of_sql"
version = "0.1.0"
edition = "2021"
publish = false

[dependencies]
ark-bls12-381 = "=0.4.0"
ark-curve25519 = "=0.4.0"
ark-ec = "=0.4.2"
ark-ff = "=0.4.2"
ark-serialize = "=0.4.2"
ark-std = "=0.4.0"
merlin = "=3.0.0"
arrow = "=51.0.0"
chrono = "=0.4.34"
sqlparser = "=0.45.0"

[dev-dependencies]
rand = "=0.8.8"
