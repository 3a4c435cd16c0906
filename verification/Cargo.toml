[package]
name = "pioemu"
version = "0.1.0"
edition = "2021"
publish = false

[dependencies]
pio = "0.3"
pio-proc = "0.3"
serialport = { version = "4", default-features = false }
