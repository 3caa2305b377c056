[package]
name = "gamut_remap"
version = "0.1.0"
edition = "2021"
publish = false

[dependencies]
bytemuck = "*"
oklab = "=1.1.2"
image = "=0.25.10"
indicatif = "=0.18.6"
rayon = "=1.12.0"
