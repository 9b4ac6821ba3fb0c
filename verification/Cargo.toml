[package]
name = "spacer"
version = "0.1.0"
edition = "2021"

[dependencies]
fastrand = "2"
log = "0.4"
