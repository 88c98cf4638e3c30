[package]
name = "kdf_init"
version = "0.1.0"
edition = "2021"
publish = false

[dependencies]
anyhow = "*"
rustix = { version = "*", features = ["fs", "mount", "system"] }
