[package]
name = "cliphop"
version = "0.1.0"
edition = "2021"
publish = false

[dependencies]
aes-gcm = "0.10"
base64 = "0.22"
serde_json = "1"
keyring = "3"
global-hotkey = "*"
objc2 = "0.6"
objc2-app-kit = "0.3"
objc2-foundation = "0.3"
block2 = "0.6"
core-graphics = "*"
tao = "*"
