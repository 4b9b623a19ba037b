[package]
name = "skat_solver"
version = "0.1.0"
edition = "2021"
publish = false

[dependencies]
arrayvec = "0.7"
fxhash = "0.2"
rand = "0.8"
