[package]
name = "compute_broker"
version = "0.1.0"
edition = "2021"
publish = false

[dependencies]
alloy-primitives = "*"
