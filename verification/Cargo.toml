[package]
name = "secret_calculator"
version = "0.1.0"
edition = "2021"
publish = false

[dependencies]
base64 = "0.13"
secret-toolkit = { version = "*", default-features = false, features = ["crypto"] }
serde = { version = "*", features = ["derive"] }
sha2 = "*"
