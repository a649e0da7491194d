[package]
name = "unsegen"
version = "0.1.0"
edition = "2021"
publish = false

[dependencies]
json = "0.12"
unicode-segmentation = "1"
unicode-width = "0.1"

[dev-dependencies]
rand = "0.8"
