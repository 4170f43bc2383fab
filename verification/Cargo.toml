[package]
name = "fc"
version = "0.2.0"
edition = "2021"
publish = false

[dependencies]
clap = "2"
