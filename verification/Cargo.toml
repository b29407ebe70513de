[package]
name = "zk_scribble"
version = "0.1.0"
edition = "2021"
publish = false

[dependencies]
hekate-core = "0.38"
hekate-math = "0.12"
hekate-program = "0.38"
hekate-sdk = "0.38"
proptest = "1"
