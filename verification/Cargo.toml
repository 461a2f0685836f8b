[package]
name = "rustybit"
version = "0.1.0"
edition = "2021"
publish = false

[dependencies]
openssl = "=0.10.81"
rand = "=0.10.3"
getopts = "=0.2.24"
