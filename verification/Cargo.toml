[package]
name = "ruffle"
version = "0.1.0"
edition = "2021"
publish = false

[dependencies]
bitstream-io = "1"
rustfft = "4"
url = "2"
