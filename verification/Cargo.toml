[package]
name = "heap_engine"
version = "0.1.0"
edition = "2021"
publish = false

[dependencies]
byteorder = "1"
thiserror = "1"
uuid = { version = "1", features = ["v4"] }
