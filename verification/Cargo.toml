[package]
name = "alekscypher"
version = "0.1.0"
edition = "2021"
publish = false

[dependencies]
aes-gcm = "=0.10.3"
argon2 = "=0.5.3"
egui = "=0.27.2"
hkdf = "=0.12.4"
image = { version = "=0.24.9", default-features = false, features = ["png"] }
rand = "=0.8.8"
rand_chacha = "=0.3.1"
rfd = { version = "=0.14.1", default-features = false, features = ["xdg-portal", "async-std"] }
sha2 = "=0.10.9"
uuid = { version = "=1.29.0", features = ["v4"] }
zeroize = "=1.9.1"
