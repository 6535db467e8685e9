[package]
name = "rustfs_applets"
version = "0.1.0"
edition = "2021"
publish = false

[dependencies]
regex = "1"
flate2 = "1"
md-5 = "0.10"
libc = "0.2"
walkdir = "2"
chrono = "0.4"
