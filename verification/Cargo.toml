[package]
name = "tonegen"
version = "0.1.0"
edition = "2021"
publish = false

[dependencies]
anyhow = "1"
cpal = "0.15"
structopt = "0.3"
