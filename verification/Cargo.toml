[package]
name = "procmon"
version = "0.1.0"
edition = "2021"
publish = false

[dependencies]
gtk = { version = "0.4", features = ["v3_22"] }
nix = "0.17"
