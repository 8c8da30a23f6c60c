[package]
name = "rolling_search"
version = "0.1.0"
edition = "2021"
publish = false

[dependencies]
boyer-moore-magiclen = "*"
fakeit = "*"
needle = "*"
rand = "0.8"
timeit = "*"
