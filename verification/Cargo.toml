[package]
name = "rarc"
version = "0.1.0"
edition = "2021"
publish = false

[dependencies]
binrw = "=0.10.0"
bitflags = "=1.3.2"
