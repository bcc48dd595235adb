[package]
name = "craine"
version = "0.1.0"
edition = "2021"
publish = false

[dependencies]
html_parser = "=0.6.3"
serde = { version = "=1.0.229", features = ["derive"] }
serde_json = "=1.0.154"
structopt = "=0.3.26"
