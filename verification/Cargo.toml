[package]
name = "wkt"
version = "0.1.0"
edition = "2021"
publish = false

[dependencies]
geo-types = "0.1"
num-traits = "0.2"
