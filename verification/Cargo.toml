[package]
name = "instagroup"
version = "0.1.0"
edition = "2021"
publish = false

[dependencies]
anyhow = "*"
jiff = "*"
serde = { version = "*", features = ["derive"] }
serde_json = "*"
size = "*"
uuid = { version = "*", features = ["v7"] }
