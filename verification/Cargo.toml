[package]
name = "reqq"
version = "0.1.0"
edition = "2021"
publish = false

[dependencies]
anyhow = "*"
clap = "*"
handlebars = "*"
http = "*"
reqwest = { version = "*", default-features = false, features = ["blocking"] }
serde_json = "*"
url = "*"
