[package]
name = "chatwheel"
version = "0.1.0"
edition = "2021"
publish = false

[dependencies]
argparse = "0.2"
dirs = "5"
gtk = "0.8"
reqwest = { version = "0.11", default-features = false, features = ["blocking"] }
rodio = "0.17"
rouille = "3"
serde = { version = "1", features = ["derive"] }
serde_json = "1"
