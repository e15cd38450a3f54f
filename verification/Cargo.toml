[package]
name = "fastcount"
version = "2.0.0"
edition = "2021"
publish = false

[dependencies]
clihelp = "*"
