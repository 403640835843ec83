[package]
name = "sonde"
version = "0.1.0"
edition = "2021"
publish = false

[dependencies]
chrono = "0.4"
log = "0.4"
serde = { version = "1", features = ["derive"] }
serde_derive = "1"
metfor = "*"
optional = "*"
itertools = "*"
sounding-analysis = "*"
sounding-bufkit = "*"
sounding-wyoming-text-list = "*"
crossbeam-channel = "*"
threadpool = "*"
lazy_static = "*"
