[package]
name = "signature_benchmark"
version = "0.1.0"
edition = "2021"

[dependencies]
aes = "0.7"
blake3 = "1"
getrandom = "0.2"
rand = "0.8"
sha2 = "0.10"
siphasher = "0.3"
subtle = "2"
