[package]
name = "depstatus"
version = "0.1.0"
edition = "2021"
publish = false

[dependencies]
semver = "*"
relative-path = "*"
hyper = { version = "*", default-features = false }
http = "*"
