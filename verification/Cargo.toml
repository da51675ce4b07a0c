[package]
name = "miditone"
version = "0.1.0"
edition = "2021"
publish = false

[dependencies]
anyhow = "1"
log = "0.4"
nom-midi = "*"
rodio = "=0.10.0"
structopt = "0.3"
