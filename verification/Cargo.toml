[package]
name = "pyroscope_kit"
version = "0.1.0"
edition = "2021"
publish = false

[dependencies]
object = { version = "0.37", default-features = false, features = ["std", "read"] }
memmap2 = "0.9"
libc = "0.2"
bbqueue = "0.5"
