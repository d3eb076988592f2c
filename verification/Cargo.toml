[package]
name = "isofs"
version = "0.1.0"
edition = "2021"
publish = false

[dependencies]
arraystring = "*"
byteorder = "*"
chrono = "*"
clap = { version = "*", features = ["derive"] }
log = "*"
thiserror = "*"
