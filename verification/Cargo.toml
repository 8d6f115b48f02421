[package]
name = "dirgather"
version = "0.1.0"
edition = "2021"
publish = false

[dependencies]
crossbeam-channel = "=0.5.17"
libc = "=0.2.191"
mpmcpq = "=0.9.3"
openat = "*"
openat_ct = "=0.1.21"
parking_lot = "=0.13.0"
