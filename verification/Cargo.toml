[package]
name = "spliterma"
version = "0.1.0"
edition = "2021"
publish = false

[dependencies]
gio = "*"
gtk4 = "*"
vte4 = "*"
serde = { version = "1", features = ["derive"] }
serde_json = "1"
