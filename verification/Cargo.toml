[package]
name = "urlpattern"
version = "0.1.0"
edition = "2021"
publish = false

[dependencies]
regex = "1"
url = "2"
unic-ucd-ident = { version = "0.9", features = ["id"] }
serde = { version = "1", features = ["derive"] }
