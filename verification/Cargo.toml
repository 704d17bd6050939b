[package]
name = "iso7816_tlv"
version = "0.1.0"
edition = "2021"
publish = false

[dependencies]
untrusted = "0.9"

[dev-dependencies]
rand_core = "0.6"
rand_xorshift = "0.3"
