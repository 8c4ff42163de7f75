[package]
name = "qf_adt"
version = "0.1.0"
edition = "2021"
publish = false

[dependencies]
egg = "0.9"
