[package]
name = "haproxy"
version = "0.1.0"
edition = "2021"
publish = false

[dependencies]
docopt = "0.7"
fileinput = "*"
libc = "0.1"
rustc-serialize = "0.3"
