[package]
name = "ap24_simulation_controller"
version = "0.1.0"
edition = "2021"
publish = false

[dependencies]
indexmap = "*"
crossbeam-channel = "*"
