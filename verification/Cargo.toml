[package]
name = "archivefs"
version = "0.1.3"
edition = "2021"
publish = false

[dependencies]
regex = "1"
libc = "0.2"
walkdir = "2"

[dev-dependencies]
tempdir = "0.3"
