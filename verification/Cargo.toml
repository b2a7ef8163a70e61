[package]
name = "star_compass"
version = "0.1.0"
edition = "2021"
publish = false

[dependencies]
aes-gcm = "0.9"
generic-array = "0.14"
hmac = "0.12"
hkdf = "0.12"
sha2 = "0.10"
curve25519-dalek = "4"
rand = "0.8"
hex = "0.4"
chrono = "0.4"
clap = { version = "4", features = ["derive"] }
serde = { version = "1", features = ["derive"] }
serde_json = "1"
thiserror = "1"
