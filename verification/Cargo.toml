[package]
name = "envmapgen"
version = "0.1.0"
edition = "2021"
publish = false

[dependencies]
cgmath = "=0.18.0"
smallvec = "=1.16.4"
