[package]
name = "dice_roll"
version = "0.1.0"
edition = "2021"
publish = false

[dependencies]
rand = "0.8"
regex = "1"
timeit = "*"

[dev-dependencies]
kolmogorov_smirnov = "*"
