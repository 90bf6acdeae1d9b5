[package]
name = "linker_resolution"
version = "0.1.0"
edition = "2021"
publish = false

[dependencies]
anyhow = "1"
bumpalo-herd = "0.1"
crossbeam-queue = "0.3"
crossbeam-utils = "0.8"
itertools = "0.13"
memchr = "2"
object = { version = "0.36", default-features = false, features = ["read_core", "elf"] }
rayon = "1"
tracing = "0.1"
