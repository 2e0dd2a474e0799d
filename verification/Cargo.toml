[package]
name = "chachacha"
version = "0.1.0"
edition = "2021"
publish = false

[dependencies]
clap = "2"
pulldown-cmark = { version = "0.7", default-features = false }
regex = "1"
