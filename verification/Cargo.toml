[package]
name = "sphere_n"
version = "0.1.0"
edition = "2021"
publish = false

[dependencies]
lds-rs = "*"
