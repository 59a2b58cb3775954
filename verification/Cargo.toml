[package]
name = "lc0_binpack"
version = "0.1.0"
edition = "2021"
publish = false

[dependencies]
flate2 = "=1.1.10"
sfbinpack = "=0.6.5"
shakmaty = "<0.30"
shakmaty-syzygy = "<0.28"
