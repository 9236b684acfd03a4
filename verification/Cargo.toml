[package]
name = "tiny_png"
version = "0.1.0"
edition = "2021"
publish = false

[dependencies]
adler = "1"
bitvec = "1"
crc = "3"

[dev-dependencies]
miniz_oxide = "0.7"
