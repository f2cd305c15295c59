[package]
name = "metriki-core"
version = "1.8.0"
edition = "2021"
publish = false

[dependencies]
crossbeam-utils = "0.8"
dashmap = "5"
hdrhistogram = { version = "7", default-features = false }
log = "0.4"
once_cell = "1"
serde = "1"
