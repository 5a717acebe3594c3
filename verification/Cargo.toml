[package]
name = "mmap_bidiff"
version = "0.1.0"
edition = "2021"
publish = false

[dependencies]
byteorder = "1"
hex = "0.4"
integer-encoding = "*"
md5 = "*"
memmap2 = "*"
num_cpus = "1"
rmp-serde = "*"
serde = { version = "1", features = ["derive"] }
thiserror = "*"
zstd = "*"
