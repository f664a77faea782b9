[package]
name = "burn_quant"
version = "0.1.0"
edition = "2021"
publish = false

[dependencies]
cubecl = { version = "=0.10.0", default-features = false }
cubek = { version = "=0.2.0", default-features = false, features = ["quantization"] }
log = "0.4"
