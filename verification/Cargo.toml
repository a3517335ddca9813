[package]
name = "usb_hive"
version = "0.1.0"
edition = "2021"
publish = false

[dependencies]
nt-hive = "*"
datetime = "*"
