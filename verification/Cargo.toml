[package]
name = "chat_translator"
version = "0.1.0"
edition = "2021"
publish = false

[dependencies]
serde_json = "*"
urlparse = "*"
ureq = { version = "*", default-features = false }
hexchat-api = "*"
