[package]
name = "yubikey_otp"
version = "0.1.0"
edition = "2021"
publish = false

[dependencies]
aes = "*"
hex = "*"
file-lock = "*"
libc = "*"
whoami = "*"
