[package]
name = "etree"
version = "0.1.0"
edition = "2021"
publish = false

[dependencies]
anyhow = "1"
bigdecimal = "0.3"
clap = "2"
log = "0.4"
stderrlog = "0.6"

[dev-dependencies]
nom = "7"
