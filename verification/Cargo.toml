[package]
name = "zip2json"
version = "0.1.0"
edition = "2021"
publish = false

[dependencies]
bytes = "1"
encoding_rs = "0.8"
filename = "0.1"
reqwest = { version = "0.11", features = ["blocking"] }
serde = { version = "1", features = ["derive"] }
serde_json = "1"
tempdir = "0.3"
zip = { version = "0.6", default-features = false, features = ["deflate"] }
