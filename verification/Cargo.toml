[package]
name = "decompiler"
version = "0.1.0"
edition = "2021"
publish = false

[dependencies]
byteorder = "1"
lazy_static = "1"
memmap = "0.7"
num-format = { version = "0.4", features = ["with-system-locale"] }
thiserror = "1"
