[package]
name = "phantom_cipher"
version = "0.1.0"
edition = "2021"
publish = false

[dependencies]
aes-gcm = "0.10"
anyhow = "1"
argon2 = "0.5"
base64 = "0.22"
dashmap = "6"
flate2 = "1"
indicatif = "0.17"
rayon = "1"
rpassword = "7"
walkdir = "2"
