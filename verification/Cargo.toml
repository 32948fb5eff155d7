[package]
name = "ratchet"
version = "0.1.0"
edition = "2021"
publish = false

[dependencies]
byteorder = "1"
encase = "0.7"
log = "0.4"
thiserror = "1"
wgpu = "0.17"
