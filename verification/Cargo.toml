[package]
name = "zng_build"
version = "0.1.0"
edition = "2021"
publish = false

[dependencies]
cc = "1"
cmake = "0.1"
