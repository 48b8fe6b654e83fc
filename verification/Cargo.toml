[package]
name = "import_pics"
version = "0.1.0"
edition = "2021"
publish = false

[dependencies]
chrono = "*"
regex = "*"
dialoguer = "*"
indicatif = "*"
