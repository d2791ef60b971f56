[package]
name = "cryptosec"
version = "0.2.0"
edition = "2021"
publish = false

[dependencies]
aes-gcm = "0.10"
anyhow = "1"
argon2 = "0.5"
base64 = "0.22"
chacha20poly1305 = "0.10"
clap = { version = "4", features = ["derive"] }
dialoguer = "0.11"
hkdf = "0.12"
ml-kem = "0.2"
rand = "0.8"
rpassword = "7"
rsa = "0.9"
serde = { version = "1", features = ["derive"] }
serde_json = "1"
sha2 = "0.10"
tar = "0.4"
x25519-dalek = { version = "2", features = ["static_secrets"] }
zeroize = "1"
