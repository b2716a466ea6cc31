[package]
name = "zk_mastermind"
version = "0.1.0"
edition = "2021"
publish = false

[dependencies]
ark-bls12-381 = "=0.4.0"
ark-crypto-primitives = { version = "=0.4.0", features = ["crh", "r1cs"] }
ark-ec = "=0.4.2"
ark-ff = "=0.4.2"
ark-groth16 = "=0.4.0"
ark-r1cs-std = "=0.4.0"
ark-relations = "=0.4.0"
ark-serialize = "=0.4.2"
ark-snark = "=0.4.0"
ark-std = "=0.4.0"
egui = { version = "=0.27.2", default-features = false }
env_logger = { version = "=0.11.11", default-features = false }
itertools = "=0.12.1"
lazy_static = "=1.5.1"
rand = "=0.8.8"
regex = "=1.13.1"
sha2 = "=0.10.9"
