[package]
name = "bragi"
version = "0.1.0"
edition = "2021"

[dependencies]
array-init = "2"
