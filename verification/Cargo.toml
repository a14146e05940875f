[package]
name = "d6_cmd"
version = "0.1.0"
edition = "2021"
publish = false

[dependencies]
linked-hash-map = "*"
getopts-macro = "*"
line-column = "*"
