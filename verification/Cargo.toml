[package]
name = "emucap"
version = "0.4.0"
edition = "2021"
publish = false

[dependencies]
serde_json = "1"
