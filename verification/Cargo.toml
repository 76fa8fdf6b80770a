[package]
name = "file_browser"
version = "0.1.0"
edition = "2021"
publish = false

[dependencies]
actix-web = { version = "4", default-features = false, features = ["macros"] }
base64 = "0.22"
image = "0.25"
mime_guess = "2"
