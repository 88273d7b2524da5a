[package]
name = "pw_roundtrip"
version = "0.1.0"
edition = "2021"
publish = false

[dependencies]
pipewire = "*"
