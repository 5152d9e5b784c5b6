[package]
name = "clipboard_history"
version = "0.1.0"
edition = "2021"
publish = false

[dependencies]
aes-gcm = "0.10"
chrono = "0.4"
once_cell = "1"
rand = "0.9"
rusqlite = { version = "*", features = ["bundled"] }
tauri = { version = "2", default-features = false }
