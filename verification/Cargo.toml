[package]
name = "delegated_mpsi"
version = "0.1.0"
edition = "2021"
publish = false

[dependencies]
bincode = "=1.3.3"
blake3 = "=1.8.7"
mpc-bench = "=0.8.2"
rand = "=0.8.8"
sets_multisets = "=0.8.0"
structopt = "=0.3.26"
