[package]
name = "pftp"
version = "0.1.0"
edition = "2021"
publish = false

[dependencies]
byteorder = "1"
sha2 = "0.10"
rand = "0.8"
clap = { version = "4", features = ["derive"] }
