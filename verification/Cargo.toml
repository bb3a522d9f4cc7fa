[package]
name = "orbweaver"
version = "0.1.0"
edition = "2021"
publish = false

[dependencies]
evdev = "0.12"
rand = "0.8"
