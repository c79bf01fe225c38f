[package]
name = "hi"
version = "0.1.0"
edition = "2021"
publish = false

[dependencies]
croner = "*"
anyhow = "*"
serde = { version = "*", features = ["derive"] }
serde_json = "*"
lz4_flex = "*"
tempfile = "*"
directories = "*"
