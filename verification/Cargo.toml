[package]
name = "nade_converter"
version = "0.1.0"
edition = "2021"
publish = false

[dependencies]
json = "0.12"
clap = { version = "4", features = ["derive"] }

[dev-dependencies]
assert_float_eq = "*"
