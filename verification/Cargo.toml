[package]
name = "enigma2_player_core"
version = "0.1.0"
edition = "2021"
publish = false

[dependencies]
url = "2"
serde = { version = "1", features = ["derive"] }
serde_json = "1"
ureq = "2"
gtk4 = "*"
