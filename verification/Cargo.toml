[package]
name = "silk_codec"
version = "0.1.0"
edition = "2021"
publish = false

[dependencies]
oxideav-celt = "=0.0.4"
oxideav-core = "=0.1.6"
