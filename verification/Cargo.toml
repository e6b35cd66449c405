[package]
name = "linebreak"
version = "0.3.0"
edition = "2021"
publish = false

[dependencies]
icu = "1.5"
libc = "0.2"
