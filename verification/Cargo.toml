[package]
name = "gitlet"
version = "0.1.0"
edition = "2021"
publish = false

[dependencies]
flate2 = "1"
rust-ini = "*"
structopt = "0.3"
