[package]
name = "instance_batch"
version = "0.1.0"
edition = "2021"
publish = false

[dependencies]
fnv = "1"
smallvec = "1"
