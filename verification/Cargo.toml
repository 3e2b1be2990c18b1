[package]
name = "extended_ui"
version = "0.1.0"
edition = "2021"
publish = false

[dependencies]
serde_json = "1"
kuchiki = "0.8"
