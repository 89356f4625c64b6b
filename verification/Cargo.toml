[package]
name = "lean_kernel_rs"
version = "0.1.0"
edition = "2021"
publish = false

[dependencies]
libc = "0.2"
memoffset = "0.9"
static_assertions = "1.1"
