[package]
name = "light_client"
version = "0.1.0"
edition = "2021"
publish = false

[dependencies]
genawaiter = { version = "0.99", default-features = false }
rand = "0.8"
