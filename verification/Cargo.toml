[package]
name = "fsreport"
version = "0.1.0"
edition = "2021"
publish = false

[dependencies]
url = "*"
anyhow = "*"
crossbeam-channel = "*"
csv = "*"
flate2 = "*"
structopt = "*"
zstd = "*"
