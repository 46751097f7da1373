[package]
name = "rusty_website"
version = "0.1.0"
edition = "2021"
publish = false

[dependencies]
humantime = "2"
tokio = { version = "1", features = ["full"] }
