[package]
name = "file_transfer"
version = "0.1.0"
edition = "2021"
publish = false

[dependencies]
tiny_http = "0.12"
zip = { version = "2", default-features = false, features = ["deflate"] }
clap = { version = "4", features = ["derive"] }
