[package]
name = "proper"
version = "0.7.1"
edition = "2021"
publish = false

[dependencies]
getopts = "=0.2.24"
lazy_static = "=1.5.1"

[dev-dependencies]
regex = "=1.13.1"
