[package]
name = "pype"
version = "0.1.0"
edition = "2021"
publish = false

[dependencies]
getopts = "*"
nix = { version = "*", default-features = false, features = ["fs"] }
tempfile = "*"
