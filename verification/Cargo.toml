[package]
name = "bar_module"
version = "0.1.0"
edition = "2021"
publish = false

[dependencies]
if-addrs = "*"
reqwest = { version = "*", default-features = false, features = ["blocking", "rustls-tls"] }
