[package]
name = "naia_core"
version = "0.1.0"
edition = "2021"
publish = false

[dependencies]
ring = "0.17"
http = "0.2"
log = "0.4"
smol = "1"
async-dup = "1"
futures-core = "0.3"
once_cell = "1"
webrtc-unreliable = "0.5"
