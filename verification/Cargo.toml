[package]
name = "image_shelf"
version = "0.1.0"
edition = "2021"
publish = false

[dependencies]
base64 = "0.22"
walkdir = "2"
zip = { version = "0.6", default-features = false, features = ["deflate"] }
