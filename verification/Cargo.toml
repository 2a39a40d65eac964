[package]
name = "scry"
version = "0.1.0"
edition = "2021"
publish = false

[dependencies]
crc = "3"
rand = "0.8"
nohash-hasher = "0.2"
clap = { version = "4", features = ["derive"] }
indicatif = "0.17"
flate2 = "1"
rusqlite = { version = "0.29", features = ["blob", "bundled"] }
thiserror = "1"
