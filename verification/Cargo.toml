[package]
name = "kvs"
version = "0.1.0"
edition = "2021"
publish = false

[dependencies]
failure = "0.1"
log = "0.4"
simplelog = "0.8"
sled = "0.34"
structopt = "0.3"

[dev-dependencies]
serde_json = "1"
tempfile = "3"
