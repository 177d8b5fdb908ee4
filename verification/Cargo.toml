[package]
name = "sspm"
version = "0.1.0"
edition = "2021"
publish = false

[dependencies]
aes-gcm = "=0.10.3"
anyhow = "=1.0.104"
arboard = "=3.7.0"
argon2 = "=0.5.3"
base64 = "=0.22.1"
clap = { version = "=4.6.7", features = ["derive"] }
colored = "=2.2.0"
csv = "=1.4.0"
dialoguer = "=0.11.0"
hkdf = "=0.12.4"
linux-keyutils = { version = "=0.2.5", features = ["std"] }
rand = "=0.8.8"
serde = { version = "=1.0.229", features = ["derive"] }
serde_json = "=1.0.154"
sha2 = "=0.10.9"
tabled = "=0.16.0"
whoami = "=2.1.3"
