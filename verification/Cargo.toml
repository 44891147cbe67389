[package]
name = "rubik"
version = "0.1.0"
edition = "2021"
publish = false

[dependencies]
clap = "3"
colored = "2"
crossbeam = "0.8"
rand = "0.8"
