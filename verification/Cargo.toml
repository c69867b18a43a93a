[package]
name = "bulk_hasher"
version = "0.1.0"
edition = "2021"
publish = false

[dependencies]
blake3 = "1"
boxcar = "*"
crossbeam = "0.8"
io-uring = "*"
nix = "*"
num_cpus = "1"
rayon = "1"
semaphore = "*"
walkdir = "2"
