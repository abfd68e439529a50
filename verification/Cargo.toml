[package]
name = "libalpm_rs"
version = "0.1.0"
edition = "2021"
publish = false

[dependencies]
base64 = "0.22"
flate2 = "1"
log = "0.4"
string-interner = "*"
tar = "0.4"

[dev-dependencies]
alpm = "*"
nom = "8"
