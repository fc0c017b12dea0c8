[package]
name = "garbled-snark-verifier"
version = "0.1.0"
edition = "2021"
publish = false

[dependencies]
ark-bn254 = "0.5"
ark-ec = "0.5"
ark-ff = "0.5"
ark-groth16 = "0.5"
ark-relations = "0.5"
ark-snark = "0.5"
aes = "0.8"
bincode = "2"
blake3 = "1"
core_affinity = "0.8"
crossbeam = "0.8"
num_cpus = "1"
rand = "0.8"
rand_chacha = "0.3"
rayon = "1"
serde = { version = "1", features = ["derive"] }
sha2 = "0.10"
sp1-zkvm = "*"
tracing = "0.1"
