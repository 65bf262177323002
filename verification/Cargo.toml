[package]
name = "braille_engine"
version = "0.1.0"
edition = "2021"
publish = false

[dependencies]
url = "2"
boa_engine = { version = "0.20", default-features = false }
boa_gc = "0.20"
