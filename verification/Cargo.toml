[package]
name = "cloud_stack"
version = "0.1.0"
edition = "2021"
publish = false

[dependencies]
anyhow = "1"
derive_more = { version = "*", features = ["display"] }
serde = { version = "1", features = ["derive"] }
thiserror = "*"
toml = "*"
walkdir = "2"
zip = { version = "*", default-features = false, features = ["deflate"] }
