[package]
name = "typst_memtables"
version = "0.1.0"
edition = "2021"
publish = false

[dependencies]
rustc-hash = "2"
parking_lot = "0.12"
tempfile = "3"
ecow = "0.2"
