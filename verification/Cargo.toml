[package]
name = "resp_codec"
version = "0.1.0"
edition = "2021"
publish = false

[dependencies]
nom = "7"
num-bigint = "=0.4.8"
