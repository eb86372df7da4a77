[package]
name = "sizr"
version = "0.1.0"
edition = "2021"
publish = false

[dependencies]
brotli = "3"
flate2 = "1"
prettytable-rs = { version = "0.10", default-features = false }
structopt = "0.3"
