[package]
name = "rosu_pp"
version = "0.1.0"
edition = "2021"
publish = false

[dependencies]
rosu-map = "*"
