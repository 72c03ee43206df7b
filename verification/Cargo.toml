[package]
name = "anchor_chess"
version = "0.1.0"
edition = "2021"
publish = false

[dependencies]
anchor-lang = "*"
num-derive = "*"
num-traits = "*"
