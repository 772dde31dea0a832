[package]
name = "rumbaa"
version = "0.1.0"
edition = "2021"
publish = false

[dependencies]
regex = "1"
clap = "2"
log = "0.4"
simplelog = "0.7"
