[package]
name = "ytdlp_gui"
version = "0.1.0"
edition = "2021"
publish = false

[dependencies]
url = "*"
sha2 = "*"
hex = "*"
chrono = "*"
dirs = "*"
serde = { version = "*", features = ["derive"] }
toml = "*"
shared_child = "*"
