[package]
name = "ginepro"
version = "0.1.0"
edition = "2021"
publish = false

[dependencies]
anyhow = "*"
http = "*"
tokio = { version = "*", features = ["rt", "time", "sync", "macros", "net"] }
tonic = "*"
tower = "*"
