[package]
name = "graphshell"
version = "0.1.0"
edition = "2021"
publish = false

[dependencies]
petgraph = "=0.8.3"
uuid = { version = "=1.29.0", features = ["v4"] }
nucleo = "=0.5.0"
rkyv = "=0.8.18"
fjall = "=3.1.13"
redb = "=4.4.0"
dirs = "=7.0.0"
toml = "=1.1.8"
serde = { version = "=1.0.229", features = ["derive"] }
log = "=0.4.35"
rand = "=0.8.8"
euclid = "=0.22.14"
url = "=2.5.8"
image = { version = "=0.25.10", default-features = false, features = ["png"] }
kiddo = "5"
crossbeam-channel = "=0.5.17"
