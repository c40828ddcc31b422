[package]
name = "backtune"
version = "0.1.0"
edition = "2021"
publish = false

[dependencies]
rand = "0.9"
serde = { version = "1", features = ["derive"] }
serde_json = "1"
directories = "*"
sdl2 = { version = "*", features = ["ttf", "image"] }
