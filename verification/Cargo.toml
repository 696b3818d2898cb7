[package]
name = "physarum"
version = "0.1.0"
edition = "2021"
publish = false

[dependencies]
xorshift = "*"
vector2d = "*"
iced = { version = "0.9", default-features = false, features = ["glow", "canvas", "smol"] }
iced_native = "0.10"
