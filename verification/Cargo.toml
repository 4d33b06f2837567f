[package]
name = "tauri_runtime_cef"
version = "0.1.0"
edition = "2021"
publish = false

[dependencies]
cef = { version = "=156.3.0", default-features = false, features = ["dox"] }
dpi = "*"
http = "=1.5.0"
log = "=0.4.35"
