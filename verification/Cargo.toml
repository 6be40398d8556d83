[package]
name = "ssh_book"
version = "0.1.0"
edition = "2021"
publish = false

[dependencies]
uuid = { version = "1", features = ["v4"] }
serde = { version = "1", features = ["derive"] }
serde_json = "1"
directories = "*"
thiserror = "*"
tauri = { version = "2", default-features = false }
