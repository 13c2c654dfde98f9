[package]
name = "libvirt_rpc"
version = "0.1.0"
edition = "2021"
publish = false

[dependencies]
heck = "*"
tokio = { version = "*", features = ["net", "io-util", "sync", "rt", "macros"] }
