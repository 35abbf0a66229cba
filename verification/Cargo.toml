[package]
name = "spardame"
version = "0.1.0"
edition = "2021"
publish = false

[dependencies]
serde = { version = "1", features = ["derive"] }
serde_json = "1"
gtk4 = { version = "*", features = ["v4_14"] }
libadwaita = "*"
