[package]
name = "redshirt_core"
version = "0.1.0"
edition = "2021"
publish = false

[dependencies]
rand_chacha = "=0.3.1"
rand_core = "=0.6.4"
rand_hc = "=0.3.2"
