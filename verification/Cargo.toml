[package]
name = "richterm"
version = "0.1.0"
edition = "2021"
publish = false

[dependencies]
lru = "0.7"
regex = "1"
uuid = { version = "1", features = ["v4"] }
itertools = "0.10"
colorsys = "0.6"
thiserror = "1"
lazy_static = "1"
