[package]
name = "threading_split"
version = "0.1.0"
edition = "2021"
publish = false

[dependencies]
crossbeam = "*"
