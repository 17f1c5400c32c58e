[package]
name = "casper_fidelity"
version = "0.1.0"
edition = "2021"
publish = false

[dependencies]
odra = "*"
odra-modules = "*"
