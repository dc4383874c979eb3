[package]
name = "nimage"
version = "0.1.0"
edition = "2021"
publish = false

[dependencies]
twox-hash = "1"
anyhow = "1"
clap = "2"
zstd = "0.13"
libc = "0.2"
num_cpus = "1"
