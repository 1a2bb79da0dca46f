[package]
name = "define3"
version = "0.1.0"
edition = "2021"
publish = false

[dependencies]
textwrap = "*"
quick-xml = "*"
rusqlite = "*"
getopts = "*"
colored = "*"
dirs = "*"

[dev-dependencies]
regex = "*"
