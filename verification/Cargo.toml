[package]
name = "merkle_tree"
version = "0.1.0"
edition = "2021"

[dependencies]
sha2 = "0.10"
