[package]
name = "rumblebars"
version = "0.3.0"
edition = "2021"
publish = false

[dependencies]
regex = "=1.13.1"
rustc-serialize = "=0.3.25"
