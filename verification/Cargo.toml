[package]
name = "uzumaki"
version = "0.1.0"
edition = "2021"
publish = false

[dependencies]
unicode-segmentation = "1"
arboard = { version = "3", default-features = false }
winit = { version = "0.30", default-features = false, features = ["x11"] }
clap = { version = "4", features = ["derive"] }
serde = { version = "1", features = ["derive"] }
serde_json = "1"
anyhow = "1"
ureq = "3"
zip = { version = "2", default-features = false, features = ["deflate"] }
tempfile = "3"
