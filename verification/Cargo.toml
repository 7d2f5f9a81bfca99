[package]
name = "gemini"
version = "0.1.0"
edition = "2021"
publish = false

[dependencies]
openssl = "0.10"
structopt = "0.3"
url = "2"
