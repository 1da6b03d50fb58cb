[package]
name = "anglosaxon"
version = "0.1.0"
edition = "2021"
publish = false

[dependencies]
xml-rs = "0.8"
clap = "3"
anyhow = "1"
