[package]
name = "kiwi_keymapper"
version = "0.1.0"
edition = "2021"
publish = false

[dependencies]
anyhow = "1"
clap = { version = "4", features = ["derive"] }
dirs = "*"
libc = "0.2"
notify = "8.2.0"
serde = { version = "1", features = ["derive"] }
serde_json = "1"
toml = "*"
core-foundation = "*"
core-graphics = "*"
objc2 = "*"
objc2-app-kit = "*"
objc2-foundation = "*"
