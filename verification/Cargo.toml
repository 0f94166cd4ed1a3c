[package]
name = "brew_status"
version = "0.1.0"
edition = "2021"
publish = false

[dependencies]
aes = "*"
base64 = "*"
cbc = { version = "*", features = ["alloc"] }
chrono = "*"
dirs = "*"
pbkdf2 = "*"
serde = { version = "*", features = ["derive"] }
serde_json = "*"
sha1 = "*"
