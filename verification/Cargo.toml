[package]
name = "time-tz"
version = "0.1.0"
edition = "2021"
publish = false

[dependencies]
time = "0.3"
