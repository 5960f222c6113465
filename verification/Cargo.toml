[package]
name = "password_vault"
version = "0.1.0"
edition = "2021"
publish = false

[dependencies]
aes = "0.8"
cipher = "0.4"
generic-array = "0.14"
bcrypt = "*"
sha2 = "0.10"
rand = "0.8"
serde = { version = "1", features = ["derive"] }
serde_json = "1"
dirs = "5"

[dev-dependencies]
hex = "0.4"
