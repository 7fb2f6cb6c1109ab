[package]
name = "arkaive"
version = "0.1.0"
edition = "2021"
publish = false

[dependencies]
anyhow = "1"
directories = "*"
flate2 = "1"
serde = { version = "1", features = ["derive"] }
shellexpand = "*"
tar = "0.4"
toml = "*"
