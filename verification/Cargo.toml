[package]
name = "pngbomb"
version = "0.1.0"
edition = "2021"
publish = false

[dependencies]
crc = "1"
docopt = "1"
error-chain = { version = "0.12", default-features = false }
flate2 = "1"
pbr = "1"
png = "0.16"
serde = { version = "1", features = ["derive"] }
