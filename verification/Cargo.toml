[package]
name = "numrs"
version = "0.8.1"
edition = "2021"
publish = false

[dependencies]
num-traits = "0.2"
rand = "0.8"
rand_distr = "0.4"
rayon = "1.10"
colored = "2"
