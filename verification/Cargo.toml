[package]
name = "shortcut_alias"
version = "0.1.0"
edition = "2021"
publish = false

[dependencies]
clap = { version = "=4.6.7", features = ["string"] }
colored = "=3.1.1"
glob = "=0.3.4"
home = "=0.5.12"
serde = { version = "=1.0.229", features = ["derive"] }
serde_yaml = "=0.9.34"
