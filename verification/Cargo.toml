[package]
name = "ntru"
version = "0.1.0"
edition = "2021"
publish = false

[dependencies]
sha1 = "*"
sha2 = "*"
getrandom = "*"
