[package]
name = "wc_rs"
version = "0.1.0"
edition = "2021"
publish = false

[dependencies]
rayon = "1"
num_cpus = "1"
structopt = "0.3"
