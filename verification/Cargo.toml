[package]
name = "libsurfer"
version = "0.1.0"
edition = "2021"
publish = false

[dependencies]
eyre = "0.6"
num = "0.4"
serde_json = "1"
camino = "1"
tracing = "0.1"
