[package]
name = "passlock"
version = "0.1.0"
edition = "2021"
publish = false

[dependencies]
aes-gcm = "*"
base64 = "*"
hex = "*"
pbkdf2 = { version = "*", features = ["hmac"] }
rand = "*"
sha2 = "*"
serde = { version = "*", features = ["derive"] }
serde_json = "*"
clap = { version = "*", features = ["derive"] }
clap_builder = "*"
arboard = { version = "*", default-features = false }
inquire = "*"
rpassword = "*"
thiserror = "*"
