[package]
name = "subseq_ascii_caseless"
version = "0.1.0"
edition = "2021"
publish = false

[dependencies]
fst = "*"
