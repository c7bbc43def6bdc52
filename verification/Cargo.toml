[package]
name = "acdc_parser"
version = "0.1.0"
edition = "2021"
publish = false

[dependencies]
url = "=2.5.8"
encoding_rs = "=0.8.44"
evalexpr = "=13.1.0"
ureq = { version = "=3.5.1", default-features = false }
serde = "1"
