[package]
name = "projectloupe"
version = "0.1.0"
edition = "2021"
publish = false

[dependencies]
sha2 = "0.10"
hex = "0.4"
image = { version = "0.25", default-features = false, features = ["jpeg"] }
rayon = "1"
anyhow = "1"
dirs = "*"
