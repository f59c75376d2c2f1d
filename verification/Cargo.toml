[package]
name = "dsh_harness"
version = "0.1.0"
edition = "2021"
publish = false

[dependencies]
libc = "0.2"
serde = { version = "1", features = ["derive"] }
serde_json = "1"
tauri = { version = "2", default-features = false, features = ["wry"] }
zstd = "0.13"
