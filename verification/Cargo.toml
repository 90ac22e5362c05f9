[package]
name = "secio"
version = "0.1.0"
edition = "2021"
publish = false

[dependencies]
ring = "=0.17.14"
aes-ctr = "=0.6.0"
secp256k1 = "=0.33.1"
asn1_der = "=0.7.7"
