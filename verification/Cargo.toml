[package]
name = "deflate_index"
version = "0.1.0"
edition = "2021"
publish = false

[dependencies]
byteorder = "=1.5.0"
libc = "=0.2.191"
libz-rs-sys = "=0.6.8"

[dev-dependencies]
zlib-rs = "=0.6.8"
