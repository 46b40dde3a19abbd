[package]
name = "nestools"
version = "0.1.0"
edition = "2021"
publish = false

[dependencies]
getopts = "*"
lodepng = "*"
serde = { version = "*", features = ["derive"] }
serde_json = "*"
serde_yaml = "*"
