[package]
name = "rsynth"
version = "0.1.0"
edition = "2021"
publish = false

[dependencies]
vecstorage = "0.1"
