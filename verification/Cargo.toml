[package]
name = "hq"
version = "0.1.0"
edition = "2021"
publish = false

[dependencies]
clap = { version = "=4.6.7", features = ["derive"] }
lol_html = "=3.0.1"
minijinja = { version = "=2.24.0", features = ["json"] }
regex = "=1.13.1"
serde = "=1.0.229"
