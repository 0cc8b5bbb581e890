[package]
name = "ssh_deploy"
version = "0.1.0"
edition = "2021"
publish = false

[dependencies]
byteorder = "1"
crc = "1"
failure = "0.1"
integer-encoding = "*"
serde = "1"
serde_derive = "1"
serde_yaml = "0.8"
tempdir = "0.3"
