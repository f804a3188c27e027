[package]
name = "nomster"
version = "0.1.0"
edition = "2021"
publish = false

[dependencies]
encoding = "0.2"
lazy_static = "1"
nom = "4"
structopt = "0.3"
