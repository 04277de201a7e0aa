[package]
name = "asset_discovery"
version = "0.1.0"
edition = "2021"
publish = false

[dependencies]
serde_json = "1"
urlencoding = "2"
tiny_http = "0.12"
tauri = { version = "2", default-features = false }
