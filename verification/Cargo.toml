[package]
name = "project_scan"
version = "0.1.0"
edition = "2021"
publish = false

[dependencies]
serde = { version = "1", features = ["derive"] }
tauri = { version = "*", default-features = false, features = ["wry"] }
thiserror = "*"
walkdir = "2"
