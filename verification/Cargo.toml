[package]
name = "simnet"
version = "0.1.0"
edition = "2021"
publish = false

[dependencies]
rand = "0.8"
rand_distr = "0.4"
tokio = { version = "1", default-features = false, features = ["sync"] }
tracing = "0.1"
