[package]
name = "skyrim_cell_dump"
version = "0.1.0"
edition = "2021"
publish = false

[dependencies]
anyhow = "*"
argh = "*"
encoding_rs = "*"
flate2 = "*"
serde = { version = "*", features = ["derive"] }
serde_json = "*"
