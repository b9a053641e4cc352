[package]
name = "antlir"
version = "0.1.0"
edition = "2021"
publish = false

[dependencies]
itertools = "*"
once_cell = "1"
anyhow = "1"
rayon = "1"
structopt = "0.3"
postgres = "*"
