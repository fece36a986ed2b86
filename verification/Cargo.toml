[package]
name = "libp2p_cat"
version = "0.1.0"
edition = "2021"
publish = false

[dependencies]
blake3 = "1"
chacha20poly1305 = "0.10"
ed25519-dalek = "2"
x25519-dalek = { version = "2", features = ["static_secrets"] }
rlnc-cat-rs = "*"
comp-cat-rs = "*"
