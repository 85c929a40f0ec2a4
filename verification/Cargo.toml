[package]
name = "jepsen_rs"
version = "0.1.0"
edition = "2021"
publish = false

[dependencies]
rand = "*"
serde = { version = "*", features = ["derive"] }
serde_json = "*"
j4rs = "*"
once_cell = "*"
anyhow = "*"
