[package]
name = "campi"
version = "0.1.0"
edition = "2021"

[dependencies]
libcamera = "=0.2.3"
