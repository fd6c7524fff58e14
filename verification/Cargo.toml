[package]
name = "nominees_election"
version = "0.1.0"
edition = "2021"
publish = false

[dependencies]
frame-support = "=49.0.0"
sp-runtime = "=49.0.0"
staging-xcm = "=25.0.0"
