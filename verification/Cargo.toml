[package]
name = "beacon_calculator"
version = "0.1.0"
edition = "2021"
publish = false

[dependencies]
crossbeam = "*"
deltae = "*"
lab = "*"
fastrand = "*"
indicatif = "*"
