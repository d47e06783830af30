[package]
name = "gif_editor_core"
version = "0.1.0"
edition = "2021"
publish = false

[dependencies]
gif = "0.13"
image = { version = "0.24", default-features = false, features = ["gif", "png"] }
serde = { version = "1", features = ["derive"] }
serde_json = "1"
