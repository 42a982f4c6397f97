[package]
name = "counting_bloom"
version = "0.1.0"
edition = "2021"
publish = false

[dependencies]
bit-vec = "*"
murmur3 = "*"
