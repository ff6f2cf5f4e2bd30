[package]
name = "ride_dispatch"
version = "0.1.0"
edition = "2021"
publish = false

[dependencies]
kdtree = "*"
itertools = "*"
