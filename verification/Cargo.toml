[package]
name = "mzdbg"
version = "0.1.0"
edition = "2021"
publish = false

[dependencies]
unicorn-engine = "*"
yaxpeax-x86 = "*"

[dev-dependencies]
byteorder = "*"
