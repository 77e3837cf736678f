[package]
name = "train_thing"
version = "0.1.0"
edition = "2021"
publish = false

[dependencies]
ggez = { version = "0.9", default-features = false }
rand = "0.8"
