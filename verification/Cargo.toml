[package]
name = "nitrohydra"
version = "0.1.0"
edition = "2021"
publish = false

[dependencies]
image = "*"
md-5 = "*"
rayon = "*"
