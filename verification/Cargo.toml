[package]
name = "availability-distribution"
version = "0.1.0"
edition = "2021"
publish = false

[dependencies]
futures = "0.3"
log = "0.4"
parity-scale-codec = "=3.7.5"
sc-keystore = "=43.0.0"
sp-core = "=43.0.0"
sp-keystore = "=0.49.0"
sp-runtime = "=49.0.0"
