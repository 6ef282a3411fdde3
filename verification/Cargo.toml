[package]
name = "bernt"
version = "0.1.0"
edition = "2021"
publish = false

[dependencies]
argh = "*"
bytemuck = "*"
chrono = "*"
fastrand = "*"
indicatif = "*"
