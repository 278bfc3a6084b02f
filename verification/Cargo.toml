[package]
name = "tausplit"
version = "0.1.0"
edition = "2021"
publish = false

[dependencies]
dary_heap = "*"
rand = "0.9"
rand_distr = "0.5"
clap = { version = "4", features = ["derive"] }
clap-cargo = "*"
