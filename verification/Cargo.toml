[package]
name = "exif_container"
version = "0.1.0"
edition = "2021"
publish = false

[dependencies]
crc = "3"
deflate = "1"

[dev-dependencies]
miniz_oxide = "*"
