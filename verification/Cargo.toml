[package]
name = "divvunspell"
version = "0.1.0"
edition = "2021"
publish = false

[dependencies]
byteorder = "1"
clap = "2"
csv = "1"
indicatif = { version = "*", features = ["rayon"] }
memmap = "0.7"
rayon = "1"
serde = "1"
serde_derive = "1"
serde_json = "1"
unic-segment = "0.9"
