[package]
name = "rdocx-layout"
version = "0.1.0"
edition = "2021"
publish = false

[dependencies]
unicode-linebreak = "=0.1.5"
