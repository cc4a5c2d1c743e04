[package]
name = "rums"
version = "0.1.0"
edition = "2021"
publish = false

[dependencies]
mio = { version = "1", features = ["net", "os-poll"] }
prost = "0.13"
prost-build = "0.13"
