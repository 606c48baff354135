[package]
name = "safa_core"
version = "0.1.0"
edition = "2021"
publish = false

[dependencies]
hashbrown = "=0.15.5"
rustc-hash = "=2.1.3"
slab = "=0.4.12"
smallvec = "=1.16.4"
ring = "=0.17.14"
rand = "=0.9.5"
cargo_metadata = "=0.23.1"
serde_json = "=1.0.154"
vte = "0.15"
