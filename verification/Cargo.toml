[package]
name = "gen_ammo"
version = "0.1.0"
edition = "2021"
publish = false

[dependencies]
twoway = "*"
flate2 = "*"
rand = "*"
clap = "*"
