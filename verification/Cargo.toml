[package]
name = "rug"
version = "0.1.0"
edition = "2021"
publish = false

[dependencies]
az = "1.2"
gmp-mpfr-sys = { version = "1.6", features = ["c-no-tests"] }
libc = "0.2"
