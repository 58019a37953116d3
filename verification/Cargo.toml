[package]
name = "debarchive"
version = "0.2.0"
edition = "2021"
publish = false

[dependencies]
ar = "=0.9.0"
libflate = "=2.3.2"
tar = "=0.4.46"
xz2 = "=0.1.7"
zstd = "=0.14.3"
