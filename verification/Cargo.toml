[package]
name = "bin_chd_converter"
version = "0.1.0"
edition = "2021"
publish = false

[dependencies]
serde = { version = "1", features = ["derive"] }
tauri = { version = "2", default-features = false }
tauri-plugin-dialog = { version = "2", default-features = false }
tempfile = "3"
walkdir = "2"
