[package]
name = "objc_runtime"
version = "0.1.0"
edition = "2021"
publish = false

[dependencies]
slotmap = "1"
pow_of_2 = "*"
aligned_box = "*"
libc = "0.2"
