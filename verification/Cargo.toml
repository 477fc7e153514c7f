[package]
name = "postgis"
version = "0.9.0"
edition = "2021"
publish = false

[dependencies]
postgres = "0.19"
bytes = "1"
