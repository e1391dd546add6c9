[package]
name = "sslchains"
version = "0.1.0"
edition = "2021"
publish = false

[dependencies]
openssl = "0.10"
getopt = "1"
walkdir = "2"
