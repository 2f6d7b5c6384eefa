[package]
name = "zos_wm"
version = "0.1.0"
edition = "2021"
publish = false

[dependencies]
xkbcommon = { version = "0.8", default-features = false }
serde = { version = "1", features = ["derive"] }
serde_json = "1"
toml = "0.8"
