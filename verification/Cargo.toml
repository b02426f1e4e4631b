[package]
name = "lethe_manifest"
version = "0.1.0"
edition = "2021"
publish = false

[dependencies]
sha1 = "*"
byteorder = "*"
dirs = "*"
reqwest = { version = "*", default-features = false, features = ["blocking"] }
