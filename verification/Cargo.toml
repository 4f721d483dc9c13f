[package]
name = "fast_stream"
version = "0.1.0"
edition = "2021"
publish = false

[dependencies]
crc32fast = "*"
sha1 = "*"
sha2 = "*"
miniz_oxide = "*"
tempfile = "*"
