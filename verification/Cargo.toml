[package]
name = "binjs_io"
version = "0.1.0"
edition = "2021"
publish = false

[dependencies]
json = "0.11"
rand = "0.6"
