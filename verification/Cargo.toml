[package]
name = "secure_cloud"
version = "0.1.0"
edition = "2021"
publish = false

[dependencies]
dryoc = "*"
shamirsecretsharing = "*"
unidecode = "*"
zxcvbn = "*"
uuid = { version = "*", features = ["v4"] }
