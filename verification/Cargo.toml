[package]
name = "cruct"
version = "0.1.0"
edition = "2021"
publish = false

[dependencies]
toml_edit = "*"
jzon = "*"
yaml-rust2 = "*"
