[package]
name = "rbop"
version = "0.1.0"
edition = "2021"
publish = false

[dependencies]
rust_decimal = { version = "1", features = ["maths"] }
num-integer = "0.1"
num-traits = "0.2"
libm = "0.2"
