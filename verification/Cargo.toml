[package]
name = "zero_shell"
version = "0.1.0"
edition = "2021"
publish = false

[dependencies]
chrono = "0.4"
dirs = "5"
libc = "0.2"
term_size = "0.3"
xattr = "1"
