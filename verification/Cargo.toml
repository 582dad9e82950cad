[package]
name = "revm_interp"
version = "0.1.0"
edition = "2021"
publish = false

[dependencies]
bytes = "1"
hashbrown = "*"
hex = "0.4"
primitive-types = "*"
