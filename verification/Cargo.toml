[package]
name = "tc"
version = "0.1.0"
edition = "2021"
publish = false

[dependencies]
bytecount = "*"
colored = "*"
num-format = "*"
structopt = "*"
term-table = "*"
