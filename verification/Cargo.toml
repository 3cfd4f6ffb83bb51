[package]
name = "text_generation"
version = "0.1.0"
edition = "2021"
publish = false

[dependencies]
rust_tokenizers = "2"
tch = "0.1"
failure = "0.1"
itertools = "0.9"
ordered-float = "1"
