[package]
name = "test_assets_ureq"
version = "0.1.0"
edition = "2021"
publish = false

[dependencies]
backon = "1"
clap = { version = "4", features = ["derive"] }
serde = { version = "1", features = ["derive"] }
sha2 = "0.10"
toml = "0.8"
ureq = "2"
