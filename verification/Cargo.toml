[package]
name = "libafl_fuzzilli"
version = "0.1.0"
edition = "2021"
publish = false

[dependencies]
libafl_bolts = "*"
