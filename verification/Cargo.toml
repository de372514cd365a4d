[package]
name = "arcsys"
version = "0.1.0"
edition = "2021"
publish = false

[dependencies]
flate2 = "=1.1.10"
thiserror = "=2.0.21"
encoding_rs = "*"
