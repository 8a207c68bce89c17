[package]
name = "pwrs"
version = "0.1.0"
edition = "2021"
publish = false

[dependencies]
getopts = "0.2"
rand = "0.9"
