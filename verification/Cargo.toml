[package]
name = "uniclip"
version = "0.1.0"
edition = "2021"
publish = false

[dependencies]
serde-encrypt = "=0.7.0"
serde-encrypt-core = "=0.7.0"
sha256 = "=1.6.0"
hex = "=0.4.3"
rand = "=0.8.8"
clap = { version = "=4.6.7", features = ["derive"] }
arboard = "=3.6.1"
device_query = "=4.0.1"
term-painter = "=0.4.0"
