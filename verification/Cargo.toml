[package]
name = "axmap"
version = "0.1.0"
edition = "2021"
publish = false

[dependencies]
hashbrown = "*"
siphasher = "*"
rand = "0.8"
