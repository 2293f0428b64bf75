[package]
name = "fhos"
version = "0.1.0"
edition = "2021"
publish = false

[dependencies]
bit_field = "=0.10.3"
x86_64 = { version = "=0.14.13", default-features = false, features = ["instructions"] }
spin = "=0.9.9"
lazy_static = "=1.5.1"
volatile = "=0.2.7"
fatfs = "=0.3.6"
wasmi = "=0.31.2"
log = "=0.4.35"
bootloader = "=0.9.35"
block_device = "0.1"
