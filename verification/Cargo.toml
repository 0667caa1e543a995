[package]
name = "centoria"
version = "0.1.0"
edition = "2021"
publish = false

[dependencies]
clap = "*"
dirs = "*"
serde = "*"
serde_derive = "*"
termcolor = "*"
toml = "*"
