[package]
name = "webshell"
version = "0.1.0"
edition = "2021"
publish = false

[dependencies]
serde_json = "1"
serde = { version = "1", features = ["derive"] }
anyhow = "1"
dirs = "*"
notify-rust = "*"
winreg = "*"
wry = "*"
tao = "*"
