[package]
name = "butter"
version = "0.1.0"
edition = "2021"
publish = false

[dependencies]
pretty = "=0.12.5"
combine = "4"
