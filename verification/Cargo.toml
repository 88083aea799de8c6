[package]
name = "tamal"
version = "0.1.0"
edition = "2021"
publish = false

[dependencies]
clap = { version = "4", features = ["derive"] }
color-eyre = "0.6"
ariadne = "0.5"
serialport = { version = "4", default-features = false }
