[package]
name = "psh_parser"
version = "0.1.0"
edition = "2021"
publish = false

[dependencies]
rowan = "=0.17.0"
itertools = "=0.15.0"
text-size = "=1.1.1"
expect-test = "=1.5.1"
